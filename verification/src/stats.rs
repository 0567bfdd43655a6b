//! Corpus statistics: per-letter maxima and totals, and for letter pairs,
//! triples and larger letter sets the Pareto fronts of the multiplicities
//! that words need at the same time.  Fronts are held in `hashbrown` maps.

use vstd::prelude::*;
use crate::alphabet::{Alphabet, occurrences, word_letters, positive_positions, lemma_positive_positions, letter_counts, present_letters, lemma_occurrences_bound, lemma_word_letters_bounded};
use crate::sorting::{lex3_lt, lex3_sorted, reordered, sort_lex3, lemma_reordered_contains, lemma_sorted_unique};
use crate::types::{topk_spec, topk_for, kge_topk_for, MAX_K, KGE_MAXK, min_nat, max_int};
use crate::pareto::{
    antichain, array_front, covered, dominates, front_insert, insert_maximal_u8, insert_maximal_vec,
    law_front_insert, uniform, vec_front,
};

verus! {

/* ------------------------------------------------------------------ */
/* Front maps                                                           */
/* ------------------------------------------------------------------ */

/// Fronts keyed by an ordered letter pair `(a, b)`, `a < b`.
#[verifier::external_body]
pub struct PairFronts {
    map: hashbrown::HashMap<(usize, usize), Vec<[u8; 2]>>,
}

/// Fronts keyed by an ordered letter triple `(a, b, c)`, `a < b < c`.
#[verifier::external_body]
pub struct TripleFronts {
    map: hashbrown::HashMap<(usize, usize, usize), Vec<[u8; 3]>>,
}

/// Fronts keyed by an increasing list of letters.
#[verifier::external_body]
pub struct KeyFronts {
    map: hashbrown::HashMap<Vec<usize>, Vec<Vec<u8>>>,
}

/// What a `PairFronts` holds.
pub uninterp spec fn pair_fronts(m: PairFronts) -> Map<(usize, usize), Seq<[u8; 2]>>;

/// What a `TripleFronts` holds.
pub uninterp spec fn triple_fronts(m: TripleFronts) -> Map<(usize, usize, usize), Seq<[u8; 3]>>;

/// What a `KeyFronts` holds; each stored vector is taken by its view.
pub uninterp spec fn key_fronts(m: KeyFronts) -> Map<Seq<usize>, Seq<Seq<u8>>>;

impl PairFronts {
    /// `hashbrown::HashMap::new`: an empty map.
    #[verifier::external_body]
    pub(crate) fn new() -> (r: PairFronts)
        ensures
            pair_fronts(r).dom().is_empty(),
    {
        PairFronts { map: hashbrown::HashMap::new() }
    }

    /// `HashMap::get`: the front stored under `k`, if any.
    #[verifier::external_body]
    pub(crate) fn get(&self, k: (usize, usize)) -> (r: Option<&Vec<[u8; 2]>>)
        ensures
            match r {
                Some(v) => pair_fronts(*self).contains_key(k) && v@ == pair_fronts(*self)[k],
                None => !pair_fronts(*self).contains_key(k),
            },
    {
        self.map.get(&k)
    }

    /// `HashMap::remove`: takes the front stored under `k` out of the map.
    #[verifier::external_body]
    fn remove(&mut self, k: (usize, usize)) -> (r: Option<Vec<[u8; 2]>>)
        ensures
            pair_fronts(*final(self)) == pair_fronts(*old(self)).remove(k),
            match r {
                Some(v) => pair_fronts(*old(self)).contains_key(k) && v@ == pair_fronts(*old(self))[k],
                None => !pair_fronts(*old(self)).contains_key(k),
            },
    {
        self.map.remove(&k)
    }

    /// `HashMap::insert`: stores `v` under `k`, replacing what was there.
    #[verifier::external_body]
    fn insert(&mut self, k: (usize, usize), v: Vec<[u8; 2]>)
        ensures
            pair_fronts(*final(self)) == pair_fronts(*old(self)).insert(k, v@),
    {
        self.map.insert(k, v);
    }

    /// `HashMap::keys`: every key once, in the map's own order.
    #[verifier::external_body]
    pub(crate) fn keys(&self) -> (r: Vec<(usize, usize)>)
        ensures
            r@.to_set() == pair_fronts(*self).dom(),
            r@.no_duplicates(),
    {
        self.map.keys().cloned().collect()
    }

    /// `HashMap::len`: the number of keys.
    #[verifier::external_body]
    pub(crate) fn len(&self) -> (r: usize)
        ensures
            r == pair_fronts(*self).dom().len(),
    {
        self.map.len()
    }

    /// `HashMap::clone`: a map with the same contents.
    #[verifier::external_body]
    pub(crate) fn duplicate(&self) -> (r: PairFronts)
        ensures
            pair_fronts(r) == pair_fronts(*self),
    {
        PairFronts { map: self.map.clone() }
    }
}

impl TripleFronts {
    /// `hashbrown::HashMap::new`: an empty map.
    #[verifier::external_body]
    pub(crate) fn new() -> (r: TripleFronts)
        ensures
            triple_fronts(r).dom().is_empty(),
    {
        TripleFronts { map: hashbrown::HashMap::new() }
    }

    /// `HashMap::get`: the front stored under `k`, if any.
    #[verifier::external_body]
    pub(crate) fn get(&self, k: (usize, usize, usize)) -> (r: Option<&Vec<[u8; 3]>>)
        ensures
            match r {
                Some(v) => triple_fronts(*self).contains_key(k) && v@ == triple_fronts(*self)[k],
                None => !triple_fronts(*self).contains_key(k),
            },
    {
        self.map.get(&k)
    }

    /// `HashMap::remove`: takes the front stored under `k` out of the map.
    #[verifier::external_body]
    fn remove(&mut self, k: (usize, usize, usize)) -> (r: Option<Vec<[u8; 3]>>)
        ensures
            triple_fronts(*final(self)) == triple_fronts(*old(self)).remove(k),
            match r {
                Some(v) => triple_fronts(*old(self)).contains_key(k) && v@ == triple_fronts(*old(self))[k],
                None => !triple_fronts(*old(self)).contains_key(k),
            },
    {
        self.map.remove(&k)
    }

    /// `HashMap::insert`: stores `v` under `k`, replacing what was there.
    #[verifier::external_body]
    fn insert(&mut self, k: (usize, usize, usize), v: Vec<[u8; 3]>)
        ensures
            triple_fronts(*final(self)) == triple_fronts(*old(self)).insert(k, v@),
    {
        self.map.insert(k, v);
    }

    /// `HashMap::keys`: every key once, in the map's own order.
    #[verifier::external_body]
    pub(crate) fn keys(&self) -> (r: Vec<(usize, usize, usize)>)
        ensures
            r@.to_set() == triple_fronts(*self).dom(),
            r@.no_duplicates(),
    {
        self.map.keys().cloned().collect()
    }

    /// `HashMap::len`: the number of keys.
    #[verifier::external_body]
    pub(crate) fn len(&self) -> (r: usize)
        ensures
            r == triple_fronts(*self).dom().len(),
    {
        self.map.len()
    }

    /// `HashMap::clone`: a map with the same contents.
    #[verifier::external_body]
    pub(crate) fn duplicate(&self) -> (r: TripleFronts)
        ensures
            triple_fronts(r) == triple_fronts(*self),
    {
        TripleFronts { map: self.map.clone() }
    }
}

impl KeyFronts {
    /// `hashbrown::HashMap::new`: an empty map.
    #[verifier::external_body]
    pub(crate) fn new() -> (r: KeyFronts)
        ensures
            key_fronts(r).dom().is_empty(),
    {
        KeyFronts { map: hashbrown::HashMap::new() }
    }

    /// `HashMap::get`: the front stored under `k`, if any.
    #[verifier::external_body]
    pub(crate) fn get(&self, k: &Vec<usize>) -> (r: Option<&Vec<Vec<u8>>>)
        ensures
            match r {
                Some(v) => key_fronts(*self).contains_key(k@) && vec_front(v@) == key_fronts(*self)[k@],
                None => !key_fronts(*self).contains_key(k@),
            },
    {
        self.map.get(k)
    }

    /// `HashMap::contains_key`.
    #[verifier::external_body]
    pub(crate) fn contains_key(&self, k: &Vec<usize>) -> (r: bool)
        ensures
            r == key_fronts(*self).contains_key(k@),
    {
        self.map.contains_key(k)
    }

    /// `HashMap::remove`: takes the front stored under `k` out of the map.
    #[verifier::external_body]
    fn remove(&mut self, k: &Vec<usize>) -> (r: Option<Vec<Vec<u8>>>)
        ensures
            key_fronts(*final(self)) == key_fronts(*old(self)).remove(k@),
            match r {
                Some(v) => key_fronts(*old(self)).contains_key(k@) && vec_front(v@) == key_fronts(*old(self))[k@],
                None => !key_fronts(*old(self)).contains_key(k@),
            },
    {
        self.map.remove(k)
    }

    /// `HashMap::insert`: stores `v` under `k`, replacing what was there.
    #[verifier::external_body]
    fn insert(&mut self, k: Vec<usize>, v: Vec<Vec<u8>>)
        ensures
            key_fronts(*final(self)) == key_fronts(*old(self)).insert(k@, vec_front(v@)),
    {
        self.map.insert(k, v);
    }

    /// `HashMap::keys`: every key once, in the map's own order.
    #[verifier::external_body]
    pub(crate) fn keys(&self) -> (r: Vec<Vec<usize>>)
        ensures
            forall|i: int| 0 <= i < r@.len() ==> key_fronts(*self).contains_key(#[trigger] r@[i]@),
            forall|k: Seq<usize>| key_fronts(*self).contains_key(k) ==> exists|i: int| 0 <= i < r@.len() && #[trigger] r@[i]@ == k,
            forall|i: int, j: int| 0 <= i < r@.len() && 0 <= j < r@.len() && i != j ==> r@[i]@ != r@[j]@,
    {
        self.map.keys().cloned().collect()
    }

    /// `HashMap::len`: the number of keys.
    #[verifier::external_body]
    pub(crate) fn len(&self) -> (r: usize)
        ensures
            r == key_fronts(*self).dom().len(),
    {
        self.map.len()
    }

    /// `HashMap::clone`: a map with the same contents.
    #[verifier::external_body]
    pub(crate) fn duplicate(&self) -> (r: KeyFronts)
        ensures
            key_fronts(r) == key_fronts(*self),
    {
        KeyFronts { map: self.map.clone() }
    }
}

/// The letter pairs that carry a front, each once.
pub fn pair_keys(m: &PairFronts) -> (r: Vec<(usize, usize)>)
    ensures
        r@.to_set() == pair_fronts(*m).dom(),
        r@.no_duplicates(),
{
    m.keys()
}

/// The front of a letter pair, if it has one.
pub fn pair_front(m: &PairFronts, k: (usize, usize)) -> (r: Option<&Vec<[u8; 2]>>)
    ensures
        match r {
            Some(v) => pair_fronts(*m).contains_key(k) && v@ == pair_fronts(*m)[k],
            None => !pair_fronts(*m).contains_key(k),
        },
{
    m.get(k)
}

/// The number of letter pairs with a front.
pub fn pair_count(m: &PairFronts) -> (r: usize)
    ensures
        r == pair_fronts(*m).dom().len(),
{
    m.len()
}

/// The letter triples that carry a front, each once.
pub fn triple_keys(m: &TripleFronts) -> (r: Vec<(usize, usize, usize)>)
    ensures
        r@.to_set() == triple_fronts(*m).dom(),
        r@.no_duplicates(),
{
    m.keys()
}

/// The front of a letter triple, if it has one.
pub fn triple_front(m: &TripleFronts, k: (usize, usize, usize)) -> (r: Option<&Vec<[u8; 3]>>)
    ensures
        match r {
            Some(v) => triple_fronts(*m).contains_key(k) && v@ == triple_fronts(*m)[k],
            None => !triple_fronts(*m).contains_key(k),
        },
{
    m.get(k)
}

/// The number of letter triples with a front.
pub fn triple_count(m: &TripleFronts) -> (r: usize)
    ensures
        r == triple_fronts(*m).dom().len(),
{
    m.len()
}

/// The letter sets that carry a front, each once.
pub fn key_list(m: &KeyFronts) -> (r: Vec<Vec<usize>>)
    ensures
        forall|i: int| 0 <= i < r@.len() ==> key_fronts(*m).contains_key(#[trigger] r@[i]@),
        forall|k: Seq<usize>| key_fronts(*m).contains_key(k) ==> exists|i: int| 0 <= i < r@.len() && #[trigger] r@[i]@ == k,
        forall|i: int, j: int| 0 <= i < r@.len() && 0 <= j < r@.len() && i != j ==> r@[i]@ != r@[j]@,
{
    m.keys()
}

/// The front of a letter set, if it has one.
pub fn key_front<'a>(m: &'a KeyFronts, k: &Vec<usize>) -> (r: Option<&'a Vec<Vec<u8>>>)
    ensures
        match r {
            Some(v) => key_fronts(*m).contains_key(k@) && vec_front(v@) == key_fronts(*m)[k@],
            None => !key_fronts(*m).contains_key(k@),
        },
{
    m.get(k)
}

/* ------------------------------------------------------------------ */
/* Needs: the best satisfied requirement of a front                     */
/* ------------------------------------------------------------------ */

/// Sum of the coordinates of `v` picked by `sel`.
pub open spec fn sel_sum(v: Seq<u8>, sel: Seq<int>) -> int
    decreases sel.len(),
{
    if sel.len() == 0 {
        0
    } else {
        sel_sum(v, sel.drop_last()) + v[sel.last()]
    }
}

/// Every picked coordinate `v[sel[j]]` is at most `have[j]`.
pub open spec fn fits(v: Seq<u8>, sel: Seq<int>, have: Seq<int>) -> bool {
    forall|j: int| 0 <= j < sel.len() ==> have[j] >= #[trigger] v[sel[j]]
}

/// The largest picked sum over the vectors of `front` that fit `have`, or 0.
pub open spec fn best_fit(front: Seq<Seq<u8>>, sel: Seq<int>, have: Seq<int>) -> int
    decreases front.len(),
{
    if front.len() == 0 {
        0
    } else {
        let prev = best_fit(front.drop_last(), sel, have);
        let v = front.last();
        if fits(v, sel, have) && sel_sum(v, sel) > prev {
            sel_sum(v, sel)
        } else {
            prev
        }
    }
}

/// Position of letter `x` inside the ordered triple `(a1, a2, a3)`.
pub open spec fn pos3(x: usize, a1: usize, a2: usize) -> int {
    if x == a1 {
        0
    } else if x == a2 {
        1
    } else {
        2
    }
}

proof fn lemma_sel_sum_bound(v: Seq<u8>, sel: Seq<int>)
    requires
        forall|j: int| 0 <= j < sel.len() ==> 0 <= #[trigger] sel[j] < v.len(),
    ensures
        0 <= sel_sum(v, sel) <= 255 * sel.len(),
    decreases sel.len(),
{
    if sel.len() > 0 {
        lemma_sel_sum_bound(v, sel.drop_last());
    }
}

proof fn lemma_best_fit_bound(front: Seq<Seq<u8>>, sel: Seq<int>, have: Seq<int>, n: nat)
    requires
        uniform(front, n),
        forall|j: int| 0 <= j < sel.len() ==> 0 <= #[trigger] sel[j] < n,
    ensures
        0 <= best_fit(front, sel, have) <= 255 * sel.len(),
    decreases front.len(),
{
    if front.len() > 0 {
        let d = front.drop_last();
        assert(uniform(d, n)) by {
            assert forall|k: int| 0 <= k < d.len() implies (#[trigger] d[k]).len() == n by {
                assert(d[k] == front[k]);
            }
        }
        lemma_best_fit_bound(d, sel, have, n);
        assert(front.last() == front[front.len() - 1]);
        lemma_sel_sum_bound(front.last(), sel);
    }
}

/// The need of a pair of letters under degrees `deg`: the largest
/// `ra + rb` over the stored requirements `[ra, rb]` that `deg` meets.
pub open spec fn need2(m: Map<(usize, usize), Seq<[u8; 2]>>, a: usize, b: usize, deg: Seq<i32>) -> int {
    if a == b {
        0
    } else {
        let key = if a < b { (a, b) } else { (b, a) };
        let sel = if a < b { seq![0int, 1] } else { seq![1int, 0] };
        if m.contains_key(key) {
            best_fit(array_front(m[key]), sel, seq![deg[a as int] as int, deg[b as int] as int])
        } else {
            0
        }
    }
}

/// Picking the two coordinates in the other order, with the limits
/// swapped to match, gives the same best fit.
proof fn lemma_best_fit_swap(front: Seq<Seq<u8>>, h0: int, h1: int)
    ensures
        best_fit(front, seq![1int, 0], seq![h1, h0]) == best_fit(front, seq![0int, 1], seq![h0, h1]),
    decreases front.len(),
{
    if front.len() > 0 {
        lemma_best_fit_swap(front.drop_last(), h0, h1);
        let v = front.last();
        let s10 = seq![1int, 0];
        let s01 = seq![0int, 1];
        assert(s10.drop_last().drop_last() =~= Seq::<int>::empty());
        assert(s01.drop_last().drop_last() =~= Seq::<int>::empty());
        assert(sel_sum(v, s10) == sel_sum(v, s01)) by {
            reveal_with_fuel(sel_sum, 3);
        }
        assert(fits(v, s10, seq![h1, h0]) == fits(v, s01, seq![h0, h1])) by {
            if fits(v, s01, seq![h0, h1]) {
                assert(seq![h0, h1][0] >= v[s01[0]]);
                assert(seq![h0, h1][1] >= v[s01[1]]);
            }
            if fits(v, s10, seq![h1, h0]) {
                assert(seq![h1, h0][0] >= v[s10[0]]);
                assert(seq![h1, h0][1] >= v[s10[1]]);
            }
        }
    }
}

/// The need of a letter pair does not depend on the order of its two
/// letters, and a letter paired with itself needs nothing.
pub proof fn law_pair_need_symmetric(m: Map<(usize, usize), Seq<[u8; 2]>>, a: usize, b: usize, deg: Seq<i32>)
    ensures
        need2(m, a, b, deg) == need2(m, b, a, deg),
        a == b ==> need2(m, a, b, deg) == 0,
{
    if a != b {
        let (lo, hi) = if a < b { (a, b) } else { (b, a) };
        lemma_best_fit_swap(array_front(m[(lo, hi)]), deg[lo as int] as int, deg[hi as int] as int);
    }
}

/// The need of three letters under degrees `deg`.
pub open spec fn need3(
    m: Map<(usize, usize, usize), Seq<[u8; 3]>>,
    a: usize,
    b: usize,
    c: usize,
    deg: Seq<i32>,
) -> int {
    let k = crate::types::ord3_spec(a, b, c);
    let sel = seq![pos3(a, k.0, k.1), pos3(b, k.0, k.1), pos3(c, k.0, k.1)];
    if m.contains_key(k) {
        best_fit(array_front(m[k]), sel, seq![deg[a as int] as int, deg[b as int] as int, deg[c as int] as int])
    } else {
        0
    }
}

/// The need of the letters of `key` under degrees `deg`, for a front whose
/// vectors are aligned with `key`.
pub open spec fn need_key(front: Seq<Seq<u8>>, key: Seq<usize>, deg: Seq<i32>) -> int {
    best_fit(front, Seq::new(key.len(), |j: int| j), Seq::new(key.len(), |j: int| deg[key[j] as int] as int))
}

/// The need of a letter pair: the best satisfied requirement stored for it.
pub fn active_union_target2(r2v: &PairFronts, a: usize, b: usize, deg: &[i32]) -> (r: i32)
    requires
        a < deg@.len(),
        b < deg@.len(),
    ensures
        r == need2(pair_fronts(*r2v), a, b, deg@),
{
    if a == b {
        return 0;
    }
    let (aa, bb, swap) = if a < b { (a, b, false) } else { (b, a, true) };
    let ghost sel = if a < b { seq![0int, 1] } else { seq![1int, 0] };
    let ghost have = seq![deg@[a as int] as int, deg@[b as int] as int];
    match r2v.get((aa, bb)) {
        None => 0,
        Some(vecs) => {
            let ghost fr = array_front(vecs@);
            let mut best: i32 = 0;
            let mut i: usize = 0;
            while i < vecs.len()
                invariant
                    i <= vecs@.len(),
                    fr == array_front(vecs@),
                    a < deg@.len(),
                    b < deg@.len(),
                    swap == !(a < b),
                    sel == (if a < b { seq![0int, 1] } else { seq![1int, 0] }),
                    have == seq![deg@[a as int] as int, deg@[b as int] as int],
                    best == best_fit(fr.take(i as int), sel, have),
                    0 <= best <= 510,
                decreases vecs.len() - i,
            {
                let v: [u8; 2] = vecs[i];
                let (ra, rb) = if swap { (v[1], v[0]) } else { (v[0], v[1]) };
                proof {
                    assert(fr.take(i + 1).drop_last() =~= fr.take(i as int));
                    assert(fr.take(i + 1).last() == v@);
                    assert(sel_sum(v@, sel) == ra + rb) by {
                        reveal_with_fuel(sel_sum, 3);
                        assert(sel.drop_last().drop_last() =~= Seq::<int>::empty());
                        assert(sel.drop_last() =~= seq![sel[0]]);
                    }
                    assert(fits(v@, sel, have) == (deg@[a as int] >= ra && deg@[b as int] >= rb)) by {
                        if deg@[a as int] >= ra && deg@[b as int] >= rb {
                            assert forall|j: int| 0 <= j < sel.len() implies have[j] >= #[trigger] v@[sel[j]] by {
                                if j == 0 {
                                } else {
                                }
                            }
                        } else {
                            if deg@[a as int] < ra {
                                assert(!(have[0] >= v@[sel[0]]));
                            } else {
                                assert(!(have[1] >= v@[sel[1]]));
                            }
                        }
                    }
                }
                if deg[a] >= ra as i32 && deg[b] >= rb as i32 {
                    let s = ra as i32 + rb as i32;
                    if s > best {
                        best = s;
                    }
                }
                i += 1;
            }
            proof {
                assert(fr.take(vecs@.len() as int) =~= fr);
            }
            best
        },
    }
}

/// The need of three letters: the best satisfied requirement stored for
/// their ordered triple, read in the order `a, b, c`.
pub fn active_union_target3(r3v: &TripleFronts, a: usize, b: usize, c: usize, deg: &[i32]) -> (r: i32)
    requires
        a < deg@.len(),
        b < deg@.len(),
        c < deg@.len(),
    ensures
        r == need3(triple_fronts(*r3v), a, b, c, deg@),
{
    let (a1, a2, a3) = crate::types::ord3(a, b, c);
    let ghost sel = seq![pos3(a, a1, a2), pos3(b, a1, a2), pos3(c, a1, a2)];
    let ghost have = seq![deg@[a as int] as int, deg@[b as int] as int, deg@[c as int] as int];
    match r3v.get((a1, a2, a3)) {
        None => 0,
        Some(vecs) => {
            let ghost fr = array_front(vecs@);
            let mut best: i32 = 0;
            let mut i: usize = 0;
            while i < vecs.len()
                invariant
                    i <= vecs@.len(),
                    fr == array_front(vecs@),
                    a < deg@.len(),
                    b < deg@.len(),
                    c < deg@.len(),
                    sel == seq![pos3(a, a1, a2), pos3(b, a1, a2), pos3(c, a1, a2)],
                    have == seq![deg@[a as int] as int, deg@[b as int] as int, deg@[c as int] as int],
                    best == best_fit(fr.take(i as int), sel, have),
                    0 <= best <= 765,
                decreases vecs.len() - i,
            {
                let v: [u8; 3] = vecs[i];
                let ra = if a == a1 { v[0] } else if a == a2 { v[1] } else { v[2] };
                let rb = if b == a1 { v[0] } else if b == a2 { v[1] } else { v[2] };
                let rc = if c == a1 { v[0] } else if c == a2 { v[1] } else { v[2] };
                proof {
                    assert(fr.take(i + 1).drop_last() =~= fr.take(i as int));
                    assert(fr.take(i + 1).last() == v@);
                    assert(ra == v@[sel[0]] && rb == v@[sel[1]] && rc == v@[sel[2]]);
                    assert(sel_sum(v@, sel) == ra + rb + rc) by {
                        reveal_with_fuel(sel_sum, 4);
                        assert(sel.drop_last().drop_last().drop_last() =~= Seq::<int>::empty());
                        assert(sel.drop_last().drop_last() =~= seq![sel[0]]);
                        assert(sel.drop_last() =~= seq![sel[0], sel[1]]);
                    }
                    if deg@[a as int] >= ra && deg@[b as int] >= rb && deg@[c as int] >= rc {
                        assert forall|j: int| 0 <= j < sel.len() implies have[j] >= #[trigger] v@[sel[j]] by {
                        }
                    } else if deg@[a as int] < ra {
                        assert(!(have[0] >= v@[sel[0]]));
                    } else if deg@[b as int] < rb {
                        assert(!(have[1] >= v@[sel[1]]));
                    } else {
                        assert(!(have[2] >= v@[sel[2]]));
                    }
                }
                if deg[a] >= ra as i32 && deg[b] >= rb as i32 && deg[c] >= rc as i32 {
                    let s = ra as i32 + rb as i32 + rc as i32;
                    if s > best {
                        best = s;
                    }
                }
                i += 1;
            }
            proof {
                assert(fr.take(vecs@.len() as int) =~= fr);
            }
            best
        },
    }
}

/// The need of the letters of `key` against a front aligned with `key`.
pub fn active_union_target_vecs(vecs: &[Vec<u8>], key: &[usize], deg: &[i32]) -> (r: i32)
    requires
        255 * key@.len() <= i32::MAX,
        forall|j: int| 0 <= j < key@.len() ==> (#[trigger] key@[j] as int) < deg@.len(),
        forall|k: int| 0 <= k < vecs@.len() ==> (#[trigger] vecs@[k]@).len() >= key@.len(),
    ensures
        r == need_key(vec_front(vecs@), key@, deg@),
{
    let ghost fr = vec_front(vecs@);
    let ghost sel = Seq::new(key@.len(), |j: int| j);
    let ghost have = Seq::new(key@.len(), |j: int| deg@[key@[j] as int] as int);
    let mut best: i32 = 0;
    let mut i: usize = 0;
    while i < vecs.len()
        invariant
            i <= vecs@.len(),
            fr == vec_front(vecs@),
            255 * key@.len() <= i32::MAX,
            forall|j: int| 0 <= j < key@.len() ==> (#[trigger] key@[j] as int) < deg@.len(),
            forall|k: int| 0 <= k < vecs@.len() ==> (#[trigger] vecs@[k]@).len() >= key@.len(),
            sel == Seq::new(key@.len(), |j: int| j),
            have == Seq::new(key@.len(), |j: int| deg@[key@[j] as int] as int),
            best == best_fit(fr.take(i as int), sel, have),
            0 <= best <= 255 * key@.len(),
        decreases vecs.len() - i,
    {
        let v = &vecs[i];
        let mut s: i32 = 0;
        let mut ok = true;
        let mut j: usize = 0;
        while j < key.len() && ok
            invariant
                j <= key@.len(),
                255 * key@.len() <= i32::MAX,
                v@.len() >= key@.len(),
                forall|t: int| 0 <= t < key@.len() ==> (#[trigger] key@[t] as int) < deg@.len(),
                sel == Seq::new(key@.len(), |t: int| t),
                have == Seq::new(key@.len(), |t: int| deg@[key@[t] as int] as int),
                ok ==> s == sel_sum(v@, sel.take(j as int)),
                ok ==> fits(v@, sel.take(j as int), have),
                !ok ==> !fits(v@, sel, have),
                0 <= s <= 255 * j,
            decreases key.len() - j + (if ok { 1int } else { 0int }),
        {
            proof {
                assert(sel.take(j + 1).drop_last() =~= sel.take(j as int));
                assert(sel.take(j + 1).last() == j as int);
            }
            if deg[key[j]] < v[j] as i32 {
                ok = false;
                proof {
                    assert(sel[j as int] == j as int);
                    assert(!(have[j as int] >= v@[sel[j as int]]));
                }
            } else {
                s = s + v[j] as i32;
                proof {
                    assert(sel[j as int] == j as int);
                    assert(have[j as int] == deg@[key@[j as int] as int] as int);
                    assert(sel.take(j + 1)[j as int] == j as int);
                    assert forall|t: int| 0 <= t < sel.take(j + 1).len() implies have[t] >= #[trigger] v@[sel.take(j + 1)[t]] by {
                        if t < j {
                            assert(sel.take(j as int)[t] == sel.take(j + 1)[t]);
                        }
                    }
                }
                j += 1;
            }
        }
        proof {
            assert(fr.take(i + 1).drop_last() =~= fr.take(i as int));
            assert(fr.take(i + 1).last() == v@);
            if ok {
                assert(sel.take(key@.len() as int) =~= sel);
            }
        }
        if ok && s > best {
            best = s;
        }
        i += 1;
    }
    proof {
        assert(fr.take(vecs@.len() as int) =~= fr);
    }
    best
}

/// The need of a letter pair (public entry point).
pub fn active_union2_pub(r2v: &PairFronts, a: usize, b: usize, deg: &[i32]) -> (r: i32)
    requires
        a < deg@.len(),
        b < deg@.len(),
    ensures
        r == need2(pair_fronts(*r2v), a, b, deg@),
{
    active_union_target2(r2v, a, b, deg)
}

/// The need of three letters (public entry point).
pub fn active_union3_pub(r3v: &TripleFronts, a: usize, b: usize, c: usize, deg: &[i32]) -> (r: i32)
    requires
        a < deg@.len(),
        b < deg@.len(),
        c < deg@.len(),
    ensures
        r == need3(triple_fronts(*r3v), a, b, c, deg@),
{
    active_union_target3(r3v, a, b, c, deg)
}

/// The need of the letters of `key` against a front aligned with `key`
/// (public entry point).
pub fn active_union_vecs_pub(vecs: &[Vec<u8>], key: &[usize], deg: &[i32]) -> (r: i32)
    requires
        255 * key@.len() <= i32::MAX,
        forall|j: int| 0 <= j < key@.len() ==> (#[trigger] key@[j] as int) < deg@.len(),
        forall|k: int| 0 <= k < vecs@.len() ==> (#[trigger] vecs@[k]@).len() >= key@.len(),
    ensures
        r == need_key(vec_front(vecs@), key@, deg@),
{
    active_union_target_vecs(vecs, key, deg)
}

/* ------------------------------------------------------------------ */
/* Projections of a letter multiset onto pairs and triples              */
/* ------------------------------------------------------------------ */

/// Strictly increasing.
pub open spec fn increasing(key: Seq<usize>) -> bool {
    forall|a: int, b: int| 0 <= a < b < key.len() ==> key[a] < key[b]
}

/// `key[t]`, or a bound above every `usize` past the end.
pub open spec fn kat(key: Seq<usize>, t: int) -> int {
    if 0 <= t < key.len() {
        key[t] as int
    } else {
        0x1_0000_0000_0000_0000
    }
}

proof fn lemma_kat(key: Seq<usize>, s: int, t: int)
    requires
        increasing(key),
        0 <= s < key.len(),
        0 <= t <= key.len(),
    ensures
        (key[s] < kat(key, t)) == (s < t),
        (key[s] == kat(key, t)) == (s == t),
{
    if t < key.len() {
        if s < t {
            assert(key[s] < key[t]);
        } else if s > t {
            assert(key[t] < key[s]);
        }
    }
}

/// `p` is an ordered pair of distinct letters of `key`.
pub open spec fn pair_of(key: Seq<usize>, p: (usize, usize)) -> bool {
    key.contains(p.0) && key.contains(p.1) && p.0 < p.1
}

/// `t` is an ordered triple of distinct letters of `key`.
pub open spec fn triple_of(key: Seq<usize>, t: (usize, usize, usize)) -> bool {
    key.contains(t.0) && key.contains(t.1) && key.contains(t.2) && t.0 < t.1 && t.1 < t.2
}

/// The front stored under `p`, or an empty front.
pub open spec fn pair_front_at(m: Map<(usize, usize), Seq<[u8; 2]>>, p: (usize, usize)) -> Seq<Seq<u8>> {
    if m.contains_key(p) {
        array_front(m[p])
    } else {
        Seq::empty()
    }
}

/// The front stored under `t`, or an empty front.
pub open spec fn triple_front_at(m: Map<(usize, usize, usize), Seq<[u8; 3]>>, t: (usize, usize, usize)) -> Seq<Seq<u8>> {
    if m.contains_key(t) {
        array_front(m[t])
    } else {
        Seq::empty()
    }
}

/// Pairs of `key` that come before `(b0, b1)` in lexicographic order.
pub open spec fn pair_done(key: Seq<usize>, p: (usize, usize), b0: int, b1: int) -> bool {
    pair_of(key, p) && (p.0 < b0 || (p.0 == b0 && p.1 < b1))
}

/// Triples of `key` that come before `(b0, b1, b2)` in lexicographic order.
pub open spec fn triple_done(key: Seq<usize>, t: (usize, usize, usize), b0: int, b1: int, b2: int) -> bool {
    triple_of(key, t) && (t.0 < b0 || (t.0 == b0 && (t.1 < b1 || (t.1 == b1 && t.2 < b2))))
}

/// `new` is `old` with `[cnt[a], cnt[b]]` inserted into the front of each
/// pair `(a, b)` that `done` selects.
pub open spec fn pairs_inserted(
    old: Map<(usize, usize), Seq<[u8; 2]>>,
    new: Map<(usize, usize), Seq<[u8; 2]>>,
    cnt: Seq<u8>,
    key: Seq<usize>,
    b0: int,
    b1: int,
) -> bool {
    &&& forall|p: (usize, usize)| #[trigger] new.contains_key(p) <==> (old.contains_key(p) || pair_done(key, p, b0, b1))
    &&& forall|p: (usize, usize)| #[trigger] pair_done(key, p, b0, b1) ==> array_front(new[p]) == front_insert(
        pair_front_at(old, p),
        seq![cnt[p.0 as int], cnt[p.1 as int]],
    )
    &&& forall|p: (usize, usize)| !pair_done(key, p, b0, b1) && #[trigger] old.contains_key(p) ==> new[p] == old[p]
}

/// `new` is `old` with `[cnt[a], cnt[b], cnt[c]]` inserted into the front of
/// each triple `(a, b, c)` that `done` selects.
pub open spec fn triples_inserted(
    old: Map<(usize, usize, usize), Seq<[u8; 3]>>,
    new: Map<(usize, usize, usize), Seq<[u8; 3]>>,
    cnt: Seq<u8>,
    key: Seq<usize>,
    b0: int,
    b1: int,
    b2: int,
) -> bool {
    &&& forall|t: (usize, usize, usize)| #[trigger] new.contains_key(t) <==> (old.contains_key(t) || triple_done(key, t, b0, b1, b2))
    &&& forall|t: (usize, usize, usize)| #[trigger] triple_done(key, t, b0, b1, b2) ==> array_front(new[t]) == front_insert(
        triple_front_at(old, t),
        seq![cnt[t.0 as int], cnt[t.1 as int], cnt[t.2 as int]],
    )
    &&& forall|t: (usize, usize, usize)| !triple_done(key, t, b0, b1, b2) && #[trigger] old.contains_key(t) ==> new[t] == old[t]
}

proof fn lemma_pairs_congr(
    old: Map<(usize, usize), Seq<[u8; 2]>>,
    new: Map<(usize, usize), Seq<[u8; 2]>>,
    cnt: Seq<u8>,
    key: Seq<usize>,
    a0: int,
    a1: int,
    b0: int,
    b1: int,
)
    requires
        pairs_inserted(old, new, cnt, key, a0, a1),
        forall|p: (usize, usize)| pair_done(key, p, a0, a1) == pair_done(key, p, b0, b1),
    ensures
        pairs_inserted(old, new, cnt, key, b0, b1),
{
    assert forall|p: (usize, usize)| #[trigger] new.contains_key(p) <==> (old.contains_key(p) || pair_done(key, p, b0, b1)) by {
        assert(pair_done(key, p, a0, a1) == pair_done(key, p, b0, b1));
    }
    assert forall|p: (usize, usize)| #[trigger] pair_done(key, p, b0, b1) implies array_front(new[p]) == front_insert(
        pair_front_at(old, p),
        seq![cnt[p.0 as int], cnt[p.1 as int]],
    ) by {
        assert(pair_done(key, p, a0, a1));
    }
    assert forall|p: (usize, usize)| !pair_done(key, p, b0, b1) && #[trigger] old.contains_key(p) implies new[p] == old[p] by {
        assert(pair_done(key, p, a0, a1) == pair_done(key, p, b0, b1));
    }
}

proof fn lemma_pairs_step(
    old: Map<(usize, usize), Seq<[u8; 2]>>,
    mid: Map<(usize, usize), Seq<[u8; 2]>>,
    new: Map<(usize, usize), Seq<[u8; 2]>>,
    cnt: Seq<u8>,
    key: Seq<usize>,
    a0: int,
    a1: int,
    b0: int,
    b1: int,
    pk: (usize, usize),
)
    requires
        pairs_inserted(old, mid, cnt, key, a0, a1),
        !pair_done(key, pk, a0, a1),
        forall|p: (usize, usize)| pair_done(key, p, b0, b1) == (pair_done(key, p, a0, a1) || p == pk),
        new == mid.remove(pk).insert(pk, new[pk]),
        array_front(new[pk]) == front_insert(pair_front_at(old, pk), seq![cnt[pk.0 as int], cnt[pk.1 as int]]),
    ensures
        pairs_inserted(old, new, cnt, key, b0, b1),
{
    assert forall|p: (usize, usize)| #[trigger] new.contains_key(p) <==> (old.contains_key(p) || pair_done(key, p, b0, b1)) by {
        assert(pair_done(key, p, b0, b1) == (pair_done(key, p, a0, a1) || p == pk));
        if p != pk {
            assert(new.contains_key(p) == mid.contains_key(p));
        }
    }
    assert forall|p: (usize, usize)| #[trigger] pair_done(key, p, b0, b1) implies array_front(new[p]) == front_insert(
        pair_front_at(old, p),
        seq![cnt[p.0 as int], cnt[p.1 as int]],
    ) by {
        if p != pk {
            assert(pair_done(key, p, a0, a1));
            assert(new[p] == mid[p]);
        }
    }
    assert forall|p: (usize, usize)| !pair_done(key, p, b0, b1) && #[trigger] old.contains_key(p) implies new[p] == old[p] by {
        assert(p != pk);
        assert(!pair_done(key, p, a0, a1));
        assert(new[p] == mid[p]);
    }
}

proof fn lemma_triples_congr(
    old: Map<(usize, usize, usize), Seq<[u8; 3]>>,
    new: Map<(usize, usize, usize), Seq<[u8; 3]>>,
    cnt: Seq<u8>,
    key: Seq<usize>,
    a0: int,
    a1: int,
    a2: int,
    b0: int,
    b1: int,
    b2: int,
)
    requires
        triples_inserted(old, new, cnt, key, a0, a1, a2),
        forall|t: (usize, usize, usize)| triple_done(key, t, a0, a1, a2) == triple_done(key, t, b0, b1, b2),
    ensures
        triples_inserted(old, new, cnt, key, b0, b1, b2),
{
    assert forall|t: (usize, usize, usize)| #[trigger] new.contains_key(t) <==> (old.contains_key(t) || triple_done(key, t, b0, b1, b2)) by {
        assert(triple_done(key, t, a0, a1, a2) == triple_done(key, t, b0, b1, b2));
    }
    assert forall|t: (usize, usize, usize)| #[trigger] triple_done(key, t, b0, b1, b2) implies array_front(new[t]) == front_insert(
        triple_front_at(old, t),
        seq![cnt[t.0 as int], cnt[t.1 as int], cnt[t.2 as int]],
    ) by {
        assert(triple_done(key, t, a0, a1, a2));
    }
    assert forall|t: (usize, usize, usize)| !triple_done(key, t, b0, b1, b2) && #[trigger] old.contains_key(t) implies new[t] == old[t] by {
        assert(triple_done(key, t, a0, a1, a2) == triple_done(key, t, b0, b1, b2));
    }
}

proof fn lemma_triples_step(
    old: Map<(usize, usize, usize), Seq<[u8; 3]>>,
    mid: Map<(usize, usize, usize), Seq<[u8; 3]>>,
    new: Map<(usize, usize, usize), Seq<[u8; 3]>>,
    cnt: Seq<u8>,
    key: Seq<usize>,
    a0: int,
    a1: int,
    a2: int,
    b0: int,
    b1: int,
    b2: int,
    tk: (usize, usize, usize),
)
    requires
        triples_inserted(old, mid, cnt, key, a0, a1, a2),
        !triple_done(key, tk, a0, a1, a2),
        forall|t: (usize, usize, usize)| triple_done(key, t, b0, b1, b2) == (triple_done(key, t, a0, a1, a2) || t == tk),
        new == mid.remove(tk).insert(tk, new[tk]),
        array_front(new[tk]) == front_insert(
            triple_front_at(old, tk),
            seq![cnt[tk.0 as int], cnt[tk.1 as int], cnt[tk.2 as int]],
        ),
    ensures
        triples_inserted(old, new, cnt, key, b0, b1, b2),
{
    assert forall|t: (usize, usize, usize)| #[trigger] new.contains_key(t) <==> (old.contains_key(t) || triple_done(key, t, b0, b1, b2)) by {
        assert(triple_done(key, t, b0, b1, b2) == (triple_done(key, t, a0, a1, a2) || t == tk));
        if t != tk {
            assert(new.contains_key(t) == mid.contains_key(t));
        }
    }
    assert forall|t: (usize, usize, usize)| #[trigger] triple_done(key, t, b0, b1, b2) implies array_front(new[t]) == front_insert(
        triple_front_at(old, t),
        seq![cnt[t.0 as int], cnt[t.1 as int], cnt[t.2 as int]],
    ) by {
        if t != tk {
            assert(triple_done(key, t, a0, a1, a2));
            assert(new[t] == mid[t]);
        }
    }
    assert forall|t: (usize, usize, usize)| !triple_done(key, t, b0, b1, b2) && #[trigger] old.contains_key(t) implies new[t] == old[t] by {
        assert(t != tk);
        assert(!triple_done(key, t, a0, a1, a2));
        assert(new[t] == mid[t]);
    }
}

/// Insert `[cnt[a], cnt[b]]` into the front of every pair `a < b` of `key`.
fn insert_pairs(r2v: &mut PairFronts, key: &Vec<usize>, cnt: &Vec<u8>)
    requires
        increasing(key@),
        forall|t: int| 0 <= t < key@.len() ==> (#[trigger] key@[t] as int) < cnt@.len(),
    ensures
        pairs_inserted(pair_fronts(*old(r2v)), pair_fronts(*final(r2v)), cnt@, key@, kat(key@, key@.len() as int), 0),
{
    let ghost m0 = pair_fronts(*r2v);
    let ghost ks = key@;
    let n = key.len();
    let mut i: usize = 0;
    while i < n
        invariant
            i <= n,
            n == ks.len(),
            ks == key@,
            increasing(ks),
            forall|t: int| 0 <= t < ks.len() ==> (#[trigger] ks[t] as int) < cnt@.len(),
            pairs_inserted(m0, pair_fronts(*r2v), cnt@, ks, kat(ks, i as int), 0),
        decreases n - i,
    {
        let mut j: usize = i + 1;
        proof {
            assert forall|p: (usize, usize)| pair_done(ks, p, kat(ks, i as int), 0) == pair_done(ks, p, kat(ks, i as int), kat(ks, j as int)) by {
                if pair_of(ks, p) {
                    let s0 = choose|s: int| 0 <= s < ks.len() && ks[s] == p.0;
                    let s1 = choose|s: int| 0 <= s < ks.len() && ks[s] == p.1;
                    lemma_kat(ks, s0, i as int);
                    lemma_kat(ks, s1, j as int);
                    lemma_kat(ks, s0, s1);
                }
            }
            lemma_pairs_congr(m0, pair_fronts(*r2v), cnt@, ks, kat(ks, i as int), 0, kat(ks, i as int), kat(ks, j as int));
        }
        while j < n
            invariant
                i < n,
                i + 1 <= j <= n,
                n == ks.len(),
                ks == key@,
                increasing(ks),
                forall|t: int| 0 <= t < ks.len() ==> (#[trigger] ks[t] as int) < cnt@.len(),
                pairs_inserted(m0, pair_fronts(*r2v), cnt@, ks, kat(ks, i as int), kat(ks, j as int)),
            decreases n - j,
        {
            let x = key[i];
            let y = key[j];
            let ghost before = pair_fronts(*r2v);
            let ghost pk = (x, y);
            proof {
                assert(x < y);
                assert(ks.contains(x) && ks.contains(y)) by {
                    assert(ks[i as int] == x);
                    assert(ks[j as int] == y);
                }
                assert(!pair_done(ks, pk, kat(ks, i as int), kat(ks, j as int)));
            }
            let mut f: Vec<[u8; 2]> = match r2v.remove((x, y)) {
                Some(v) => v,
                None => Vec::new(),
            };
            proof {
                assert(array_front(f@) == pair_front_at(m0, pk)) by {
                    if !before.contains_key(pk) {
                        assert(array_front(f@) =~= Seq::<Seq<u8>>::empty());
                    }
                }
            }
            let v: [u8; 2] = [cnt[x], cnt[y]];
            assert(v@ =~= seq![cnt@[x as int], cnt@[y as int]]);
            insert_maximal_u8(&mut f, v);
            r2v.insert((x, y), f);
            proof {
                let m1 = pair_fronts(*r2v);
                assert forall|p: (usize, usize)| pair_done(ks, p, kat(ks, i as int), kat(ks, j + 1)) == (pair_done(ks, p, kat(ks, i as int), kat(ks, j as int)) || p == pk) by {
                    if pair_of(ks, p) {
                        let s0 = choose|s: int| 0 <= s < ks.len() && ks[s] == p.0;
                        let s1 = choose|s: int| 0 <= s < ks.len() && ks[s] == p.1;
                        lemma_kat(ks, s0, i as int);
                        lemma_kat(ks, s1, j as int);
                        lemma_kat(ks, s1, j + 1);
                    }
                }
                assert(m1 == before.remove(pk).insert(pk, m1[pk]));
                lemma_pairs_step(m0, before, m1, cnt@, ks, kat(ks, i as int), kat(ks, j as int), kat(ks, i as int), kat(ks, j + 1), pk);
            }
            j += 1;
        }
        proof {
            assert forall|p: (usize, usize)| pair_done(ks, p, kat(ks, i as int), kat(ks, n as int)) == pair_done(ks, p, kat(ks, i + 1), 0) by {
                if pair_of(ks, p) {
                    let s0 = choose|s: int| 0 <= s < ks.len() && ks[s] == p.0;
                    let s1 = choose|s: int| 0 <= s < ks.len() && ks[s] == p.1;
                    lemma_kat(ks, s0, i as int);
                    lemma_kat(ks, s0, i + 1);
                    lemma_kat(ks, s1, n as int);
                }
            }
            lemma_pairs_congr(m0, pair_fronts(*r2v), cnt@, ks, kat(ks, i as int), kat(ks, n as int), kat(ks, i + 1), 0);
        }
        i += 1;
    }
}

/// Insert `[cnt[a], cnt[b], cnt[c]]` into the front of every triple
/// `a < b < c` of `key`.
fn insert_triples(r3v: &mut TripleFronts, key: &Vec<usize>, cnt: &Vec<u8>)
    requires
        increasing(key@),
        forall|t: int| 0 <= t < key@.len() ==> (#[trigger] key@[t] as int) < cnt@.len(),
    ensures
        triples_inserted(triple_fronts(*old(r3v)), triple_fronts(*final(r3v)), cnt@, key@, kat(key@, key@.len() as int), 0, 0),
{
    let ghost m0 = triple_fronts(*r3v);
    let ghost ks = key@;
    let n = key.len();
    let mut i: usize = 0;
    while i < n
        invariant
            i <= n,
            n == ks.len(),
            ks == key@,
            increasing(ks),
            forall|t: int| 0 <= t < ks.len() ==> (#[trigger] ks[t] as int) < cnt@.len(),
            triples_inserted(m0, triple_fronts(*r3v), cnt@, ks, kat(ks, i as int), 0, 0),
        decreases n - i,
    {
        let mut j: usize = i + 1;
        proof {
            assert forall|t: (usize, usize, usize)| triple_done(ks, t, kat(ks, i as int), kat(ks, j as int), 0) == triple_done(ks, t, kat(ks, i as int), 0, 0) by {
                if triple_of(ks, t) {
                    let s0 = choose|s: int| 0 <= s < ks.len() && ks[s] == t.0;
                    let s1 = choose|s: int| 0 <= s < ks.len() && ks[s] == t.1;
                    lemma_kat(ks, s0, i as int);
                    lemma_kat(ks, s1, j as int);
                    lemma_kat(ks, s0, s1);
                }
            }
            lemma_triples_congr(m0, triple_fronts(*r3v), cnt@, ks, kat(ks, i as int), 0, 0, kat(ks, i as int), kat(ks, j as int), 0);
        }
        while j < n
            invariant
                i < n,
                i + 1 <= j <= n,
                n == ks.len(),
                ks == key@,
                increasing(ks),
                forall|t: int| 0 <= t < ks.len() ==> (#[trigger] ks[t] as int) < cnt@.len(),
                triples_inserted(m0, triple_fronts(*r3v), cnt@, ks, kat(ks, i as int), kat(ks, j as int), 0),
            decreases n - j,
        {
            let mut l: usize = j + 1;
            proof {
                assert forall|t: (usize, usize, usize)| triple_done(ks, t, kat(ks, i as int), kat(ks, j as int), kat(ks, l as int)) == triple_done(ks, t, kat(ks, i as int), kat(ks, j as int), 0) by {
                    if triple_of(ks, t) {
                        let s1 = choose|s: int| 0 <= s < ks.len() && ks[s] == t.1;
                        let s2 = choose|s: int| 0 <= s < ks.len() && ks[s] == t.2;
                        lemma_kat(ks, s1, j as int);
                        lemma_kat(ks, s2, l as int);
                        lemma_kat(ks, s1, s2);
                    }
                }
                lemma_triples_congr(m0, triple_fronts(*r3v), cnt@, ks, kat(ks, i as int), kat(ks, j as int), 0, kat(ks, i as int), kat(ks, j as int), kat(ks, l as int));
            }
            while l < n
                invariant
                    i < n,
                    i + 1 <= j < n,
                    j + 1 <= l <= n,
                    n == ks.len(),
                    ks == key@,
                    increasing(ks),
                    forall|t: int| 0 <= t < ks.len() ==> (#[trigger] ks[t] as int) < cnt@.len(),
                    triples_inserted(m0, triple_fronts(*r3v), cnt@, ks, kat(ks, i as int), kat(ks, j as int), kat(ks, l as int)),
                decreases n - l,
            {
                let a = key[i];
                let b = key[j];
                let c = key[l];
                let ghost before = triple_fronts(*r3v);
                let ghost tk = (a, b, c);
                proof {
                    assert(a < b && b < c);
                    assert(ks.contains(a) && ks.contains(b) && ks.contains(c)) by {
                        assert(ks[i as int] == a);
                        assert(ks[j as int] == b);
                        assert(ks[l as int] == c);
                    }
                    assert(!triple_done(ks, tk, kat(ks, i as int), kat(ks, j as int), kat(ks, l as int)));
                }
                let mut f: Vec<[u8; 3]> = match r3v.remove((a, b, c)) {
                    Some(v) => v,
                    None => Vec::new(),
                };
                proof {
                    assert(array_front(f@) == triple_front_at(m0, tk)) by {
                        if !before.contains_key(tk) {
                            assert(array_front(f@) =~= Seq::<Seq<u8>>::empty());
                        }
                    }
                }
                let v: [u8; 3] = [cnt[a], cnt[b], cnt[c]];
                assert(v@ =~= seq![cnt@[a as int], cnt@[b as int], cnt@[c as int]]);
                insert_maximal_u8(&mut f, v);
                r3v.insert((a, b, c), f);
                proof {
                    let m1 = triple_fronts(*r3v);
                    assert forall|t: (usize, usize, usize)| triple_done(ks, t, kat(ks, i as int), kat(ks, j as int), kat(ks, l + 1)) == (triple_done(ks, t, kat(ks, i as int), kat(ks, j as int), kat(ks, l as int)) || t == tk) by {
                        if triple_of(ks, t) {
                            let s0 = choose|s: int| 0 <= s < ks.len() && ks[s] == t.0;
                            let s1 = choose|s: int| 0 <= s < ks.len() && ks[s] == t.1;
                            let s2 = choose|s: int| 0 <= s < ks.len() && ks[s] == t.2;
                            lemma_kat(ks, s0, i as int);
                            lemma_kat(ks, s1, j as int);
                            lemma_kat(ks, s2, l as int);
                            lemma_kat(ks, s2, l + 1);
                        }
                    }
                    assert(m1 == before.remove(tk).insert(tk, m1[tk]));
                    lemma_triples_step(m0, before, m1, cnt@, ks, kat(ks, i as int), kat(ks, j as int), kat(ks, l as int), kat(ks, i as int), kat(ks, j as int), kat(ks, l + 1), tk);
                }
                l += 1;
            }
            proof {
                assert forall|t: (usize, usize, usize)| triple_done(ks, t, kat(ks, i as int), kat(ks, j as int), kat(ks, n as int)) == triple_done(ks, t, kat(ks, i as int), kat(ks, j + 1), 0) by {
                    if triple_of(ks, t) {
                        let s1 = choose|s: int| 0 <= s < ks.len() && ks[s] == t.1;
                        let s2 = choose|s: int| 0 <= s < ks.len() && ks[s] == t.2;
                        lemma_kat(ks, s1, j as int);
                        lemma_kat(ks, s1, j + 1);
                        lemma_kat(ks, s2, n as int);
                    }
                }
                lemma_triples_congr(m0, triple_fronts(*r3v), cnt@, ks, kat(ks, i as int), kat(ks, j as int), kat(ks, n as int), kat(ks, i as int), kat(ks, j + 1), 0);
            }
            j += 1;
        }
        proof {
            assert forall|t: (usize, usize, usize)| triple_done(ks, t, kat(ks, i as int), kat(ks, n as int), 0) == triple_done(ks, t, kat(ks, i + 1), 0, 0) by {
                if triple_of(ks, t) {
                    let s0 = choose|s: int| 0 <= s < ks.len() && ks[s] == t.0;
                    let s1 = choose|s: int| 0 <= s < ks.len() && ks[s] == t.1;
                    lemma_kat(ks, s0, i as int);
                    lemma_kat(ks, s0, i + 1);
                    lemma_kat(ks, s1, n as int);
                }
            }
            lemma_triples_congr(m0, triple_fronts(*r3v), cnt@, ks, kat(ks, i as int), kat(ks, n as int), 0, kat(ks, i + 1), 0, 0);
        }
        i += 1;
    }
}

/* ------------------------------------------------------------------ */
/* Letter sets of four or more letters                                  */
/* ------------------------------------------------------------------ */

/// The front stored under `key`, or an empty front.
pub open spec fn key_front_at(m: Map<Seq<usize>, Seq<Seq<u8>>>, key: Seq<usize>) -> Seq<Seq<u8>> {
    if m.contains_key(key) {
        m[key]
    } else {
        Seq::empty()
    }
}

/// The multiplicities of the letters of `key`, read from `cnt`.
pub open spec fn key_vals(cnt: Seq<u8>, key: Seq<usize>) -> Seq<u8> {
    Seq::new(key.len(), |j: int| cnt[key[j] as int])
}

/// Every stored front holds vectors as long as their key, none dominating
/// another.
pub open spec fn key_fronts_wf(m: Map<Seq<usize>, Seq<Seq<u8>>>) -> bool {
    forall|key: Seq<usize>| #[trigger] m.contains_key(key) ==> uniform(m[key], key.len()) && antichain(m[key])
}

/// `new` is `old` with `key_vals(cnt, key)` inserted into the front of each
/// key that `sel` selects.
pub open spec fn keys_inserted(
    old: Map<Seq<usize>, Seq<Seq<u8>>>,
    new: Map<Seq<usize>, Seq<Seq<u8>>>,
    cnt: Seq<u8>,
    sel: spec_fn(Seq<usize>) -> bool,
) -> bool {
    &&& forall|key: Seq<usize>| #[trigger] new.contains_key(key) <==> (old.contains_key(key) || sel(key))
    &&& forall|key: Seq<usize>| #[trigger] sel(key) ==> new[key] == front_insert(key_front_at(old, key), key_vals(cnt, key))
    &&& forall|key: Seq<usize>| !sel(key) && #[trigger] old.contains_key(key) ==> new[key] == old[key]
}

/// `key` is an increasing list of `k` letters of `pool`.
pub open spec fn subset_key(pool: Seq<usize>, k: nat, key: Seq<usize>) -> bool {
    &&& key.len() == k
    &&& increasing(key)
    &&& forall|j: int| 0 <= j < key.len() ==> pool.contains(#[trigger] key[j])
}

/// Keys of length `k` that extend `prefix` (of length `depth`) with letters
/// taken from `pool` at positions `start` and later.
pub open spec fn rec_sel(pool: Seq<usize>, start: int, depth: int, k: int, prefix: Seq<usize>, key: Seq<usize>) -> bool {
    &&& key.len() == k
    &&& key.take(depth) == prefix
    &&& increasing(key)
    &&& forall|j: int| depth <= j < k ==> #[trigger] in_pool_from(pool, start, key[j])
}

/// `x` occurs in `pool` at position `start` or later.
pub open spec fn in_pool_from(pool: Seq<usize>, start: int, x: usize) -> bool {
    exists|t: int| start <= t < pool.len() && pool[t] == x
}

proof fn lemma_keys_inserted_empty(m: Map<Seq<usize>, Seq<Seq<u8>>>, cnt: Seq<u8>, sel: spec_fn(Seq<usize>) -> bool)
    requires
        forall|key: Seq<usize>| !#[trigger] sel(key),
    ensures
        keys_inserted(m, m, cnt, sel),
{
}

proof fn lemma_keys_inserted_compose(
    old: Map<Seq<usize>, Seq<Seq<u8>>>,
    mid: Map<Seq<usize>, Seq<Seq<u8>>>,
    new: Map<Seq<usize>, Seq<Seq<u8>>>,
    cnt: Seq<u8>,
    a: spec_fn(Seq<usize>) -> bool,
    b: spec_fn(Seq<usize>) -> bool,
    c: spec_fn(Seq<usize>) -> bool,
)
    requires
        keys_inserted(old, mid, cnt, a),
        keys_inserted(mid, new, cnt, b),
        forall|key: Seq<usize>| !(#[trigger] a(key) && b(key)),
        forall|key: Seq<usize>| #[trigger] c(key) == (a(key) || b(key)),
    ensures
        keys_inserted(old, new, cnt, c),
{
    assert forall|key: Seq<usize>| #[trigger] new.contains_key(key) <==> (old.contains_key(key) || c(key)) by {
        assert(c(key) == (a(key) || b(key)));
        assert(mid.contains_key(key) <==> (old.contains_key(key) || a(key)));
    }
    assert forall|key: Seq<usize>| #[trigger] c(key) implies new[key] == front_insert(key_front_at(old, key), key_vals(cnt, key)) by {
        if b(key) {
            assert(!a(key));
            assert(mid.contains_key(key) == old.contains_key(key));
            if old.contains_key(key) {
                assert(mid[key] == old[key]);
            }
            assert(key_front_at(mid, key) == key_front_at(old, key));
        } else {
            assert(a(key));
            assert(mid.contains_key(key));
            assert(new[key] == mid[key]);
        }
    }
    assert forall|key: Seq<usize>| !c(key) && #[trigger] old.contains_key(key) implies new[key] == old[key] by {
        assert(!a(key) && !b(key));
        assert(mid.contains_key(key));
        assert(mid[key] == old[key]);
    }
}

proof fn lemma_keys_inserted_wf(
    old: Map<Seq<usize>, Seq<Seq<u8>>>,
    new: Map<Seq<usize>, Seq<Seq<u8>>>,
    cnt: Seq<u8>,
    sel: spec_fn(Seq<usize>) -> bool,
)
    requires
        key_fronts_wf(old),
        keys_inserted(old, new, cnt, sel),
    ensures
        key_fronts_wf(new),
{
    assert forall|key: Seq<usize>| #[trigger] new.contains_key(key) implies uniform(new[key], key.len()) && antichain(new[key]) by {
        if sel(key) {
            let f = key_front_at(old, key);
            let v = key_vals(cnt, key);
            if !old.contains_key(key) {
                assert(f =~= Seq::<Seq<u8>>::empty());
            }
            law_front_insert(f, v);
        } else {
            assert(old.contains_key(key));
        }
    }
}

/// Positions in `pool` of the letters of an increasing key grow with the key.
proof fn lemma_positions(pool: Seq<usize>, key: Seq<usize>, start: int, depth: int, k: int, j: int, t: int)
    requires
        increasing(pool),
        increasing(key),
        key.len() == k,
        0 <= start,
        0 <= depth <= j < k,
        forall|jj: int| depth <= jj < k ==> #[trigger] in_pool_from(pool, start, key[jj]),
        0 <= t < pool.len(),
        pool[t] == key[j],
    ensures
        t + (k - j) <= pool.len(),
    decreases k - j,
{
    if j + 1 < k {
        assert(in_pool_from(pool, start, key[j + 1]));
        let t2 = choose|tt: int| start <= tt < pool.len() && pool[tt] == key[j + 1];
        assert(key[j] < key[j + 1]);
        if t2 <= t {
            if t2 < t {
                assert(pool[t2] < pool[t]);
            }
        }
        lemma_positions(pool, key, start, depth, k, j + 1, t2);
    }
}

/// Enumerate the keys that extend `cur[..depth]` with letters of
/// `pool[start..]`, inserting `key_vals(cnt, key)` into each key's front.
fn insert_subsets_rec(
    pool: &Vec<usize>,
    start: usize,
    depth: usize,
    k: usize,
    cur: &mut Vec<usize>,
    cnt: &Vec<u8>,
    rhv: &mut KeyFronts,
)
    requires
        increasing(pool@),
        k <= pool@.len(),
        forall|t: int| 0 <= t < pool@.len() ==> (#[trigger] pool@[t] as int) < cnt@.len(),
        old(cur)@.len() == k,
        depth <= k,
        start <= pool@.len(),
        increasing(old(cur)@.take(depth as int)),
        forall|j: int| 0 <= j < depth ==> (#[trigger] old(cur)@[j] as int) < cnt@.len(),
        depth > 0 ==> (start > 0 && old(cur)@[depth - 1] == pool@[start - 1]),
        key_fronts_wf(key_fronts(*old(rhv))),
    ensures
        final(cur)@.len() == k,
        final(cur)@.take(depth as int) == old(cur)@.take(depth as int),
        key_fronts_wf(key_fronts(*final(rhv))),
        keys_inserted(
            key_fronts(*old(rhv)),
            key_fronts(*final(rhv)),
            cnt@,
            |key: Seq<usize>| rec_sel(pool@, start as int, depth as int, k as int, old(cur)@.take(depth as int), key),
        ),
    decreases k - depth,
{
    let ghost m0 = key_fronts(*rhv);
    let ghost prefix = cur@.take(depth as int);
    let ghost c0 = cur@;
    if depth == k {
        let mut key: Vec<usize> = Vec::new();
        let mut vals: Vec<u8> = Vec::new();
        let mut j: usize = 0;
        while j < k
            invariant
                j <= k,
                cur@ == c0,
                c0.len() == k,
                depth == k,
                forall|jj: int| 0 <= jj < depth ==> (#[trigger] c0[jj] as int) < cnt@.len(),
                key@ == c0.take(j as int),
                vals@ == key_vals(cnt@, c0.take(j as int)),
            decreases k - j,
        {
            let l = cur[j];
            key.push(l);
            vals.push(cnt[l]);
            j += 1;
            assert(key@ =~= c0.take(j as int));
            assert(vals@ =~= key_vals(cnt@, c0.take(j as int)));
        }
        assert(c0.take(k as int) =~= c0);
        let mut f: Vec<Vec<u8>> = match rhv.remove(&key) {
            Some(v) => v,
            None => Vec::new(),
        };
        proof {
            assert(vec_front(f@) == key_front_at(m0, c0)) by {
                if !m0.contains_key(c0) {
                    assert(vec_front(f@) =~= Seq::<Seq<u8>>::empty());
                }
            }
            assert(uniform(vec_front(f@), vals@.len()));
        }
        insert_maximal_vec(&mut f, vals);
        rhv.insert(key, f);
        proof {
            let m1 = key_fronts(*rhv);
            let sel = |kk: Seq<usize>| rec_sel(pool@, start as int, depth as int, k as int, prefix, kk);
            assert forall|kk: Seq<usize>| #[trigger] sel(kk) == (kk == c0) by {
                if sel(kk) {
                    assert(kk == kk.take(k as int));
                    assert(kk =~= c0);
                }
                if kk == c0 {
                    assert(c0.take(depth as int) =~= c0);
                }
            }
            assert(keys_inserted(m0, m1, cnt@, sel));
            lemma_keys_inserted_wf(m0, m1, cnt@, sel);
        }
        return;
    }
    let n = pool.len();
    let last_start = n - (k - depth);
    let mut i: usize = start;
    proof {
        let sel0 = |kk: Seq<usize>| rec_sel(pool@, start as int, depth as int, k as int, prefix, kk) && kk[depth as int] < kat(pool@, start as int);
        assert forall|kk: Seq<usize>| !#[trigger] sel0(kk) by {
            if sel0(kk) {
                assert(in_pool_from(pool@, start as int, kk[depth as int]));
                let t = choose|t: int| start <= t < pool@.len() && pool@[t] == kk[depth as int];
                lemma_kat(pool@, t, start as int);
            }
        }
        lemma_keys_inserted_empty(m0, cnt@, sel0);
    }
    while i <= last_start
        invariant
            start <= i,
            i <= last_start + 1 || i == start,
            depth < k,
            n == pool@.len(),
            last_start == n - (k - depth),
            increasing(pool@),
            k <= pool@.len(),
            forall|t: int| 0 <= t < pool@.len() ==> (#[trigger] pool@[t] as int) < cnt@.len(),
            cur@.len() == k,
            cur@.take(depth as int) == prefix,
            prefix == c0.take(depth as int),
            increasing(prefix),
            forall|j: int| 0 <= j < depth ==> (#[trigger] prefix[j] as int) < cnt@.len(),
            depth > 0 ==> (start > 0 && prefix[depth - 1] == pool@[start - 1]),
            key_fronts_wf(key_fronts(*rhv)),
            keys_inserted(
                m0,
                key_fronts(*rhv),
                cnt@,
                |kk: Seq<usize>| rec_sel(pool@, start as int, depth as int, k as int, prefix, kk) && kk[depth as int] < kat(pool@, i as int),
            ),
        decreases last_start + 1 - i,
    {
        let ghost mid = key_fronts(*rhv);
        let pi = pool[i];
        cur.set(depth, pi);
        proof {
            assert(cur@.take(depth as int) =~= prefix);
            assert(cur@.take(depth + 1) =~= prefix.push(pi));
            let ghost np0 = cur@.take(depth + 1);
            assert forall|a: int, b: int| 0 <= a < b < np0.len() implies #[trigger] np0[a] < #[trigger] np0[b] by {
                if b == depth {
                    if depth > 0 {
                        if a < depth - 1 {
                            assert(prefix[a] < prefix[depth - 1]);
                        }
                        assert(prefix[depth - 1] == pool@[start - 1]);
                        assert(pool@[start - 1] < pool@[i as int]);
                    }
                } else {
                    assert(prefix[a] < prefix[b]);
                }
            }
        }
        proof {
            assert forall|j: int| 0 <= j < depth + 1 implies (#[trigger] cur@[j] as int) < cnt@.len() by {
                if j < depth {
                    assert(cur@[j] == cur@.take(depth as int)[j]);
                }
            }
        }
        insert_subsets_rec(pool, i + 1, depth + 1, k, cur, cnt, rhv);
        proof {
            let m1 = key_fronts(*rhv);
            let np = prefix.push(pi);
            assert(cur@.take(depth as int) =~= cur@.take(depth + 1).take(depth as int));
            let a = |kk: Seq<usize>| rec_sel(pool@, start as int, depth as int, k as int, prefix, kk) && kk[depth as int] < kat(pool@, i as int);
            let b = |kk: Seq<usize>| rec_sel(pool@, i + 1, depth + 1, k as int, np, kk);
            let c = |kk: Seq<usize>| rec_sel(pool@, start as int, depth as int, k as int, prefix, kk) && kk[depth as int] < kat(pool@, i + 1);
            assert forall|kk: Seq<usize>| #[trigger] b(kk) == (rec_sel(pool@, start as int, depth as int, k as int, prefix, kk) && kk[depth as int] == pi) by {
                if b(kk) {
                    assert(kk.take(depth + 1)[depth as int] == pi);
                    assert(kk.take(depth as int) =~= kk.take(depth + 1).take(depth as int));
                    assert(np.take(depth as int) =~= prefix);
                    assert forall|j: int| depth <= j < k implies #[trigger] in_pool_from(pool@, start as int, kk[j]) by {
                        if j == depth {
                            assert(pool@[i as int] == kk[j]);
                        } else {
                            assert(in_pool_from(pool@, i + 1, kk[j]));
                            let t = choose|t: int| i + 1 <= t < pool@.len() && pool@[t] == kk[j];
                            assert(start <= t);
                        }
                    }
                }
                if rec_sel(pool@, start as int, depth as int, k as int, prefix, kk) && kk[depth as int] == pi {
                    assert(kk.take(depth + 1) =~= np);
                    assert forall|j: int| depth + 1 <= j < k implies #[trigger] in_pool_from(pool@, i + 1, kk[j]) by {
                        assert(in_pool_from(pool@, start as int, kk[j]));
                        let t = choose|t: int| start <= t < pool@.len() && pool@[t] == kk[j];
                        assert(kk[depth as int] < kk[j]);
                        if t <= i {
                            if t < i {
                                assert(pool@[t] < pool@[i as int]);
                            }
                        }
                    }
                }
            }
            assert forall|kk: Seq<usize>| !(#[trigger] a(kk) && b(kk)) by {
                if a(kk) && b(kk) {
                    lemma_kat(pool@, i as int, i as int);
                }
            }
            assert forall|kk: Seq<usize>| #[trigger] c(kk) == (a(kk) || b(kk)) by {
                if rec_sel(pool@, start as int, depth as int, k as int, prefix, kk) {
                    assert(in_pool_from(pool@, start as int, kk[depth as int]));
                let t = choose|t: int| start <= t < pool@.len() && pool@[t] == kk[depth as int];
                    lemma_kat(pool@, t, i as int);
                    lemma_kat(pool@, t, i + 1);
                }
            }
            lemma_keys_inserted_compose(m0, mid, m1, cnt@, a, b, c);
        }
        i += 1;
    }
    proof {
        let m1 = key_fronts(*rhv);
        let a = |kk: Seq<usize>| rec_sel(pool@, start as int, depth as int, k as int, prefix, kk) && kk[depth as int] < kat(pool@, i as int);
        let c = |kk: Seq<usize>| rec_sel(pool@, start as int, depth as int, k as int, prefix, kk);
        assert forall|kk: Seq<usize>| #[trigger] c(kk) == a(kk) by {
            if c(kk) {
                assert(in_pool_from(pool@, start as int, kk[depth as int]));
                let t = choose|t: int| start <= t < pool@.len() && pool@[t] == kk[depth as int];
                lemma_positions(pool@, kk, start as int, depth as int, k as int, depth as int, t);
                lemma_kat(pool@, t, i as int);
            }
        }
        assert(keys_inserted(m0, m1, cnt@, c)) by {
            assert forall|key: Seq<usize>| #[trigger] m1.contains_key(key) <==> (m0.contains_key(key) || c(key)) by {
                assert(c(key) == a(key));
            }
            assert forall|key: Seq<usize>| #[trigger] c(key) implies m1[key] == front_insert(key_front_at(m0, key), key_vals(cnt@, key)) by {
                assert(a(key));
            }
            assert forall|key: Seq<usize>| !c(key) && #[trigger] m0.contains_key(key) implies m1[key] == m0[key] by {
                assert(!a(key));
            }
        }
    }
}

/* ------------------------------------------------------------------ */
/* What the front maps stand for                                        */
/* ------------------------------------------------------------------ */

/// The requirement a record puts on the pair `p`.
pub open spec fn pair_vec(cnt: Seq<u8>, p: (usize, usize)) -> Seq<u8> {
    seq![cnt[p.0 as int], cnt[p.1 as int]]
}

/// The requirement a record puts on the triple `t`.
pub open spec fn triple_vec(cnt: Seq<u8>, t: (usize, usize, usize)) -> Seq<u8> {
    seq![cnt[t.0 as int], cnt[t.1 as int], cnt[t.2 as int]]
}

/// `m` holds a front for exactly the pairs of letters that some record
/// (a letter set with its multiplicities) contains, and each front is the
/// Pareto front of the requirements those records put on the pair: an
/// antichain covering exactly what some requirement dominates.
pub open spec fn pair_models(m: Map<(usize, usize), Seq<[u8; 2]>>, recs: Seq<(Seq<usize>, Seq<u8>)>) -> bool {
    &&& forall|p: (usize, usize)| #[trigger] m.contains_key(p) <==> exists|r: int| 0 <= r < recs.len() && pair_of(recs[r].0, p)
    &&& forall|p: (usize, usize)| #[trigger] m.contains_key(p) ==> antichain(array_front(m[p]))
    &&& forall|p: (usize, usize), x: Seq<u8>|
        m.contains_key(p) && x.len() == 2 ==> (#[trigger] covered(array_front(m[p]), x) <==> exists|r: int|
            0 <= r < recs.len() && pair_of(recs[r].0, p) && dominates(pair_vec(recs[r].1, p), x))
}

/// The same for triples of letters.
pub open spec fn triple_models(m: Map<(usize, usize, usize), Seq<[u8; 3]>>, recs: Seq<(Seq<usize>, Seq<u8>)>) -> bool {
    &&& forall|t: (usize, usize, usize)| #[trigger] m.contains_key(t) <==> exists|r: int| 0 <= r < recs.len() && triple_of(recs[r].0, t)
    &&& forall|t: (usize, usize, usize)| #[trigger] m.contains_key(t) ==> antichain(array_front(m[t]))
    &&& forall|t: (usize, usize, usize), x: Seq<u8>|
        m.contains_key(t) && x.len() == 3 ==> (#[trigger] covered(array_front(m[t]), x) <==> exists|r: int|
            0 <= r < recs.len() && triple_of(recs[r].0, t) && dominates(triple_vec(recs[r].1, t), x))
}

/// The same for letter sets of any size, each record selecting its keys.
pub open spec fn keyed_models(m: Map<Seq<usize>, Seq<Seq<u8>>>, recs: Seq<(spec_fn(Seq<usize>) -> bool, Seq<u8>)>) -> bool {
    &&& forall|key: Seq<usize>| #[trigger] m.contains_key(key) <==> exists|r: int| 0 <= r < recs.len() && (recs[r].0)(key)
    &&& key_fronts_wf(m)
    &&& forall|key: Seq<usize>, x: Seq<u8>|
        m.contains_key(key) && x.len() == key.len() ==> (#[trigger] covered(m[key], x) <==> exists|r: int|
            0 <= r < recs.len() && (recs[r].0)(key) && dominates(key_vals(recs[r].1, key), x))
}

proof fn lemma_array_front_uniform<const N: usize>(f: Seq<[u8; N]>)
    ensures
        uniform(array_front(f), N as nat),
{
}

/// Inserting the pairs of one record into a map that stands for some
/// records gives a map that stands for those records and the new one.
pub proof fn law_pairs_extend(
    old: Map<(usize, usize), Seq<[u8; 2]>>,
    new: Map<(usize, usize), Seq<[u8; 2]>>,
    recs: Seq<(Seq<usize>, Seq<u8>)>,
    key: Seq<usize>,
    cnt: Seq<u8>,
)
    requires
        pair_models(old, recs),
        pairs_inserted(old, new, cnt, key, kat(key, key.len() as int), 0),
    ensures
        pair_models(new, recs.push((key, cnt))),
{
    let rs = recs.push((key, cnt));
    assert forall|p: (usize, usize)| pair_done(key, p, kat(key, key.len() as int), 0) == pair_of(key, p) by {}
    assert forall|p: (usize, usize)| #[trigger] new.contains_key(p) <==> exists|r: int| 0 <= r < rs.len() && pair_of(rs[r].0, p) by {
        if new.contains_key(p) && !pair_of(key, p) {
            assert(old.contains_key(p));
            let r = choose|r: int| 0 <= r < recs.len() && pair_of(recs[r].0, p);
            assert(rs[r] == recs[r]);
        }
        if new.contains_key(p) && pair_of(key, p) {
            assert(rs[recs.len() as int] == (key, cnt));
        }
        if exists|r: int| 0 <= r < rs.len() && pair_of(rs[r].0, p) {
            let r = choose|r: int| 0 <= r < rs.len() && pair_of(rs[r].0, p);
            if r < recs.len() {
                assert(rs[r] == recs[r]);
            }
        }
    }
    assert forall|p: (usize, usize)| #[trigger] new.contains_key(p) implies antichain(array_front(new[p])) && (forall|x: Seq<u8>|
        x.len() == 2 ==> (#[trigger] covered(array_front(new[p]), x) <==> exists|r: int|
            0 <= r < rs.len() && pair_of(rs[r].0, p) && dominates(pair_vec(rs[r].1, p), x))) by {
        if pair_of(key, p) {
            let f = pair_front_at(old, p);
            if old.contains_key(p) {
                lemma_array_front_uniform(old[p]);
            } else {
                assert(f =~= Seq::<Seq<u8>>::empty());
            }
            law_front_insert(f, pair_vec(cnt, p));
            assert forall|x: Seq<u8>| x.len() == 2 implies (#[trigger] covered(array_front(new[p]), x) <==> exists|r: int|
                0 <= r < rs.len() && pair_of(rs[r].0, p) && dominates(pair_vec(rs[r].1, p), x)) by {
                if covered(array_front(new[p]), x) {
                    if covered(f, x) {
                        assert(old.contains_key(p));
                        let r = choose|r: int| 0 <= r < recs.len() && pair_of(recs[r].0, p) && dominates(pair_vec(recs[r].1, p), x);
                        assert(rs[r] == recs[r]);
                    } else {
                        assert(rs[recs.len() as int] == (key, cnt));
                    }
                }
                if exists|r: int| 0 <= r < rs.len() && pair_of(rs[r].0, p) && dominates(pair_vec(rs[r].1, p), x) {
                    let r = choose|r: int| 0 <= r < rs.len() && pair_of(rs[r].0, p) && dominates(pair_vec(rs[r].1, p), x);
                    if r < recs.len() {
                        assert(rs[r] == recs[r]);
                        assert(old.contains_key(p));
                    }
                }
            }
        } else {
            assert(old.contains_key(p));
            assert(new[p] == old[p]);
            assert forall|x: Seq<u8>| x.len() == 2 implies (#[trigger] covered(array_front(new[p]), x) <==> exists|r: int|
                0 <= r < rs.len() && pair_of(rs[r].0, p) && dominates(pair_vec(rs[r].1, p), x)) by {
                if covered(array_front(new[p]), x) {
                    let r = choose|r: int| 0 <= r < recs.len() && pair_of(recs[r].0, p) && dominates(pair_vec(recs[r].1, p), x);
                    assert(rs[r] == recs[r]);
                }
                if exists|r: int| 0 <= r < rs.len() && pair_of(rs[r].0, p) && dominates(pair_vec(rs[r].1, p), x) {
                    let r = choose|r: int| 0 <= r < rs.len() && pair_of(rs[r].0, p) && dominates(pair_vec(rs[r].1, p), x);
                    assert(r < recs.len());
                    assert(rs[r] == recs[r]);
                }
            }
        }
    }
}

/// The same for triples.
pub proof fn law_triples_extend(
    old: Map<(usize, usize, usize), Seq<[u8; 3]>>,
    new: Map<(usize, usize, usize), Seq<[u8; 3]>>,
    recs: Seq<(Seq<usize>, Seq<u8>)>,
    key: Seq<usize>,
    cnt: Seq<u8>,
)
    requires
        triple_models(old, recs),
        triples_inserted(old, new, cnt, key, kat(key, key.len() as int), 0, 0),
    ensures
        triple_models(new, recs.push((key, cnt))),
{
    let rs = recs.push((key, cnt));
    assert forall|t: (usize, usize, usize)| triple_done(key, t, kat(key, key.len() as int), 0, 0) == triple_of(key, t) by {}
    assert forall|t: (usize, usize, usize)| #[trigger] new.contains_key(t) <==> exists|r: int| 0 <= r < rs.len() && triple_of(rs[r].0, t) by {
        if new.contains_key(t) && !triple_of(key, t) {
            assert(old.contains_key(t));
            let r = choose|r: int| 0 <= r < recs.len() && triple_of(recs[r].0, t);
            assert(rs[r] == recs[r]);
        }
        if new.contains_key(t) && triple_of(key, t) {
            assert(rs[recs.len() as int] == (key, cnt));
        }
        if exists|r: int| 0 <= r < rs.len() && triple_of(rs[r].0, t) {
            let r = choose|r: int| 0 <= r < rs.len() && triple_of(rs[r].0, t);
            if r < recs.len() {
                assert(rs[r] == recs[r]);
            }
        }
    }
    assert forall|t: (usize, usize, usize)| #[trigger] new.contains_key(t) implies antichain(array_front(new[t])) && (forall|x: Seq<u8>|
        x.len() == 3 ==> (#[trigger] covered(array_front(new[t]), x) <==> exists|r: int|
            0 <= r < rs.len() && triple_of(rs[r].0, t) && dominates(triple_vec(rs[r].1, t), x))) by {
        if triple_of(key, t) {
            let f = triple_front_at(old, t);
            if old.contains_key(t) {
                lemma_array_front_uniform(old[t]);
            } else {
                assert(f =~= Seq::<Seq<u8>>::empty());
            }
            law_front_insert(f, triple_vec(cnt, t));
            assert forall|x: Seq<u8>| x.len() == 3 implies (#[trigger] covered(array_front(new[t]), x) <==> exists|r: int|
                0 <= r < rs.len() && triple_of(rs[r].0, t) && dominates(triple_vec(rs[r].1, t), x)) by {
                if covered(array_front(new[t]), x) {
                    if covered(f, x) {
                        assert(old.contains_key(t));
                        let r = choose|r: int| 0 <= r < recs.len() && triple_of(recs[r].0, t) && dominates(triple_vec(recs[r].1, t), x);
                        assert(rs[r] == recs[r]);
                    } else {
                        assert(rs[recs.len() as int] == (key, cnt));
                    }
                }
                if exists|r: int| 0 <= r < rs.len() && triple_of(rs[r].0, t) && dominates(triple_vec(rs[r].1, t), x) {
                    let r = choose|r: int| 0 <= r < rs.len() && triple_of(rs[r].0, t) && dominates(triple_vec(rs[r].1, t), x);
                    if r < recs.len() {
                        assert(rs[r] == recs[r]);
                        assert(old.contains_key(t));
                    }
                }
            }
        } else {
            assert(old.contains_key(t));
            assert(new[t] == old[t]);
            assert forall|x: Seq<u8>| x.len() == 3 implies (#[trigger] covered(array_front(new[t]), x) <==> exists|r: int|
                0 <= r < rs.len() && triple_of(rs[r].0, t) && dominates(triple_vec(rs[r].1, t), x)) by {
                if covered(array_front(new[t]), x) {
                    let r = choose|r: int| 0 <= r < recs.len() && triple_of(recs[r].0, t) && dominates(triple_vec(recs[r].1, t), x);
                    assert(rs[r] == recs[r]);
                }
                if exists|r: int| 0 <= r < rs.len() && triple_of(rs[r].0, t) && dominates(triple_vec(rs[r].1, t), x) {
                    let r = choose|r: int| 0 <= r < rs.len() && triple_of(rs[r].0, t) && dominates(triple_vec(rs[r].1, t), x);
                    assert(r < recs.len());
                    assert(rs[r] == recs[r]);
                }
            }
        }
    }
}

/// The same for letter sets selected by a record.
pub proof fn law_keys_extend(
    old: Map<Seq<usize>, Seq<Seq<u8>>>,
    new: Map<Seq<usize>, Seq<Seq<u8>>>,
    recs: Seq<(spec_fn(Seq<usize>) -> bool, Seq<u8>)>,
    sel: spec_fn(Seq<usize>) -> bool,
    cnt: Seq<u8>,
)
    requires
        keyed_models(old, recs),
        keys_inserted(old, new, cnt, sel),
    ensures
        keyed_models(new, recs.push((sel, cnt))),
{
    let rs = recs.push((sel, cnt));
    lemma_keys_inserted_wf(old, new, cnt, sel);
    assert forall|key: Seq<usize>| #[trigger] new.contains_key(key) <==> exists|r: int| 0 <= r < rs.len() && (rs[r].0)(key) by {
        if new.contains_key(key) && !sel(key) {
            assert(old.contains_key(key));
            let r = choose|r: int| 0 <= r < recs.len() && (recs[r].0)(key);
            assert(rs[r] == recs[r]);
        }
        if new.contains_key(key) && sel(key) {
            assert(rs[recs.len() as int] == (sel, cnt));
        }
        if exists|r: int| 0 <= r < rs.len() && (rs[r].0)(key) {
            let r = choose|r: int| 0 <= r < rs.len() && (rs[r].0)(key);
            if r < recs.len() {
                assert(rs[r] == recs[r]);
            }
        }
    }
    assert forall|key: Seq<usize>, x: Seq<u8>| new.contains_key(key) && x.len() == key.len() implies (#[trigger] covered(new[key], x) <==> exists|r: int|
        0 <= r < rs.len() && (rs[r].0)(key) && dominates(key_vals(rs[r].1, key), x)) by {
        if sel(key) {
            let f = key_front_at(old, key);
            if !old.contains_key(key) {
                assert(f =~= Seq::<Seq<u8>>::empty());
            }
            law_front_insert(f, key_vals(cnt, key));
            if covered(new[key], x) {
                if covered(f, x) {
                    assert(old.contains_key(key));
                    let r = choose|r: int| 0 <= r < recs.len() && (recs[r].0)(key) && dominates(key_vals(recs[r].1, key), x);
                    assert(rs[r] == recs[r]);
                } else {
                    assert(rs[recs.len() as int] == (sel, cnt));
                }
            }
            if exists|r: int| 0 <= r < rs.len() && (rs[r].0)(key) && dominates(key_vals(rs[r].1, key), x) {
                let r = choose|r: int| 0 <= r < rs.len() && (rs[r].0)(key) && dominates(key_vals(rs[r].1, key), x);
                if r < recs.len() {
                    assert(rs[r] == recs[r]);
                    assert(old.contains_key(key));
                }
            }
        } else {
            assert(old.contains_key(key));
            assert(new[key] == old[key]);
            if covered(new[key], x) {
                let r = choose|r: int| 0 <= r < recs.len() && (recs[r].0)(key) && dominates(key_vals(recs[r].1, key), x);
                assert(rs[r] == recs[r]);
            }
            if exists|r: int| 0 <= r < rs.len() && (rs[r].0)(key) && dominates(key_vals(rs[r].1, key), x) {
                let r = choose|r: int| 0 <= r < rs.len() && (rs[r].0)(key) && dominates(key_vals(rs[r].1, key), x);
                assert(r < recs.len());
                assert(rs[r] == recs[r]);
            }
        }
    }
}

/* ------------------------------------------------------------------ */
/* Seeded tie-breaks                                                    */
/* ------------------------------------------------------------------ */

/// The SplitMix64 output function.
pub open spec fn splitmix64_spec(x: u64) -> u64 {
    let x1 = x.wrapping_add(0x9E3779B97F4A7C15u64);
    let x2 = (x1 ^ (x1 >> 30u64)).wrapping_mul(0xBF58476D1CE4E5B9u64);
    let x3 = (x2 ^ (x2 >> 27u64)).wrapping_mul(0x94D049BB133111EBu64);
    x3 ^ (x3 >> 31u64)
}

/// SplitMix64: a fixed mixing of a 64-bit value.
pub fn splitmix64(x: u64) -> (r: u64)
    ensures
        r == splitmix64_spec(x),
{
    let mut x = x;
    x = x.wrapping_add(0x9E3779B97F4A7C15);
    x = (x ^ (x >> 30)).wrapping_mul(0xBF58476D1CE4E5B9);
    x = (x ^ (x >> 27)).wrapping_mul(0x94D049BB133111EB);
    x ^ (x >> 31)
}

/// Per-letter seeded tie-break among letters of equal count.
pub open spec fn tbletter_spec(l: usize, seed: u64) -> u64 {
    splitmix64_spec(seed ^ (l as u64).wrapping_mul(0xA0761D6478BD642Fu64))
}

fn tbletter(letter_idx: usize, tie_seed: u64) -> (r: u64)
    ensures
        r == tbletter_spec(letter_idx, tie_seed),
{
    splitmix64(tie_seed ^ (letter_idx as u64).wrapping_mul(0xA0761D6478BD642F))
}

/// Signature of a word from its letters and multiplicities, over the first
/// `i` letters.
pub open spec fn kge_signature(cnt: Seq<u8>, i: int) -> u64
    decreases i,
{
    if i <= 0 {
        0xA24B_AED4_963E_E407u64
    } else {
        let h = kge_signature(cnt, i - 1);
        let c = cnt[i - 1];
        if c != 0 {
            splitmix64_spec(
                h ^ ((i - 1) as u64).wrapping_mul(0xD6E8_FEB8_6659_FD93u64) ^ (c as u64).wrapping_mul(0xBF58_476D_1CE4_E5B9u64),
            )
        } else {
            h
        }
    }
}

fn kge_word_signature_from_counts(cnt: &Vec<u8>) -> (h: u64)
    ensures
        h == kge_signature(cnt@, cnt@.len() as int),
{
    let mut h: u64 = 0xA24B_AED4_963E_E407;
    let mut i: usize = 0;
    while i < cnt.len()
        invariant
            i <= cnt@.len(),
            h == kge_signature(cnt@, i as int),
        decreases cnt.len() - i,
    {
        let c = cnt[i];
        if c != 0 {
            h = splitmix64(h ^ (i as u64).wrapping_mul(0xD6E8_FEB8_6659_FD93) ^ (c as u64).wrapping_mul(0xBF58_476D_1CE4_E5B9));
        }
        i += 1;
    }
    h
}

/// Seeded weight of letter `l` for a word of signature `sig`.
pub open spec fn kge_letter_weight_spec(seed: u64, sig: u64, l: usize) -> u64 {
    splitmix64_spec(seed ^ sig ^ (l as u64).wrapping_mul(0x9E37_79B9_7F4A_7C15u64))
}

fn kge_letter_weight(seed: u64, word_sig: u64, l: usize) -> (r: u64)
    ensures
        r == kge_letter_weight_spec(seed, word_sig, l),
{
    splitmix64(seed ^ word_sig ^ (l as u64).wrapping_mul(0x9E37_79B9_7F4A_7C15))
}

/* ------------------------------------------------------------------ */
/* Ranking letters                                                      */
/* ------------------------------------------------------------------ */

/// Ranking of the letters of a word for the statistics: higher count
/// first, then the seeded tie-break, then the letter.
pub open spec fn count_rank_key(c: Seq<usize>, seed: u64) -> spec_fn(usize) -> (u64, u64, usize) {
    |l: usize| ((0xFFFF_FFFF_FFFF_FFFFu64 - c[l as int]) as u64, tbletter_spec(l, seed), l)
}

/// Ranking of the letters of a word for seeded subsets: by seeded weight,
/// then the letter.
pub open spec fn weight_rank_key(seed: u64, sig: u64) -> spec_fn(usize) -> (u64, u64, usize) {
    |l: usize| (0u64, kge_letter_weight_spec(seed, sig, l), l)
}

/// Plain increasing order of letters.
pub open spec fn plain_key() -> spec_fn(usize) -> (u64, u64, usize) {
    |l: usize| (0u64, 0u64, l)
}

/// `ord` lists exactly the letters of `letters`, in increasing `key` order.
pub open spec fn ranked(ord: Seq<usize>, letters: Seq<usize>, key: spec_fn(usize) -> (u64, u64, usize)) -> bool {
    &&& forall|x: usize| ord.contains(x) <==> letters.contains(x)
    &&& forall|i: int, j: int| 0 <= i < j < ord.len() ==> lex3_lt(key(ord[i]), key(ord[j]))
}

/// Order distinct letters by the keys given for them.
fn sort_letters_by(keys: Vec<(u64, u64, usize)>, Ghost(key): Ghost<spec_fn(usize) -> (u64, u64, usize)>) -> (r: Vec<usize>)
    requires
        forall|t: int| 0 <= t < keys@.len() ==> #[trigger] keys@[t] == key(keys@[t].2),
        forall|i: int, j: int| 0 <= i < keys@.len() && 0 <= j < keys@.len() && i != j ==> keys@[i].2 != keys@[j].2,
    ensures
        r@.len() == keys@.len(),
        forall|x: usize| r@.contains(x) <==> exists|t: int| 0 <= t < keys@.len() && keys@[t].2 == x,
        forall|i: int, j: int| 0 <= i < j < r@.len() ==> lex3_lt(key(r@[i]), key(r@[j])),
{
    let mut v = keys;
    let ghost k0 = v@;
    assert(k0.no_duplicates()) by {
        assert forall|i: int, j: int| 0 <= i < k0.len() && 0 <= j < k0.len() && i != j implies k0[i] != k0[j] by {
            assert(k0[i].2 != k0[j].2);
        }
    }
    sort_lex3(&mut v);
    let ghost (p, q) = choose|p: Seq<int>, q: Seq<int>| reordered(k0, v@, p, q);
    proof {
        lemma_reordered_contains(k0, v@, p, q);
    }
    let mut r: Vec<usize> = Vec::new();
    let mut i: usize = 0;
    while i < v.len()
        invariant
            i <= v@.len(),
            v@.len() == k0.len(),
            lex3_sorted(v@),
            reordered(k0, v@, p, q),
            forall|t: int| 0 <= t < k0.len() ==> #[trigger] k0[t] == key(k0[t].2),
            r@.len() == i,
            forall|t: int| 0 <= t < i ==> #[trigger] r@[t] == v@[t].2,
        decreases v.len() - i,
    {
        r.push(v[i].2);
        i += 1;
    }
    proof {
        assert forall|t: int| 0 <= t < v@.len() implies #[trigger] v@[t] == key(v@[t].2) by {
            assert(v@[t] == k0[p[t]]);
        }
        assert forall|x: usize| r@.contains(x) <==> exists|t: int| 0 <= t < k0.len() && k0[t].2 == x by {
            if r@.contains(x) {
                let t = choose|t: int| 0 <= t < r@.len() && r@[t] == x;
                assert(v@[t] == k0[p[t]]);
            }
            if exists|t: int| 0 <= t < k0.len() && k0[t].2 == x {
                let t = choose|t: int| 0 <= t < k0.len() && k0[t].2 == x;
                assert(v@[q[t]] == k0[t]);
                assert(r@[q[t]] == x);
            }
        }
        assert forall|a: int, b: int| 0 <= a < b < r@.len() implies lex3_lt(key(r@[a]), key(r@[b])) by {
            assert(lex3_lt(v@[a], v@[b]));
        }
    }
    r
}

/// Order distinct letters by the keys given for them.
pub fn sort_letters_by_pub(keys: Vec<(u64, u64, usize)>, Ghost(key): Ghost<spec_fn(usize) -> (u64, u64, usize)>) -> (r: Vec<usize>)
    requires
        forall|t: int| 0 <= t < keys@.len() ==> #[trigger] keys@[t] == key(keys@[t].2),
        forall|i: int, j: int| 0 <= i < keys@.len() && 0 <= j < keys@.len() && i != j ==> keys@[i].2 != keys@[j].2,
    ensures
        r@.len() == keys@.len(),
        forall|x: usize| r@.contains(x) <==> exists|t: int| 0 <= t < keys@.len() && keys@[t].2 == x,
        forall|i: int, j: int| 0 <= i < j < r@.len() ==> lex3_lt(key(r@[i]), key(r@[j])),
{
    sort_letters_by(keys, Ghost(key))
}

/// The letters of `letters` in increasing count-rank order.
fn rank_by_counts(letters: &Vec<usize>, counts: &Vec<usize>, seed: u64) -> (ord: Vec<usize>)
    requires
        forall|a: int, b: int| 0 <= a < b < letters@.len() ==> letters@[a] < letters@[b],
        forall|t: int| 0 <= t < letters@.len() ==> (#[trigger] letters@[t] as int) < counts@.len(),
    ensures
        ord@.len() == letters@.len(),
        ranked(ord@, letters@, count_rank_key(counts@, seed)),
{
    let ghost key = count_rank_key(counts@, seed);
    let mut keys: Vec<(u64, u64, usize)> = Vec::new();
    let mut i: usize = 0;
    while i < letters.len()
        invariant
            i <= letters@.len(),
            key == count_rank_key(counts@, seed),
            forall|t: int| 0 <= t < letters@.len() ==> (#[trigger] letters@[t] as int) < counts@.len(),
            keys@.len() == i,
            forall|t: int| 0 <= t < i ==> #[trigger] keys@[t] == key(letters@[t]) && keys@[t].2 == letters@[t],
        decreases letters.len() - i,
    {
        let l = letters[i];
        let c = counts[l];
        keys.push(((0xFFFF_FFFF_FFFF_FFFFu64 - c as u64), tbletter(l, seed), l));
        i += 1;
    }
    proof {
        assert forall|i: int, j: int| 0 <= i < keys@.len() && 0 <= j < keys@.len() && i != j implies keys@[i].2 != keys@[j].2 by {
            if i < j {
                assert(letters@[i] < letters@[j]);
            } else {
                assert(letters@[j] < letters@[i]);
            }
        }
    }
    let ord = sort_letters_by(keys, Ghost(key));
    proof {
        assert forall|x: usize| ord@.contains(x) <==> letters@.contains(x) by {
            if letters@.contains(x) {
                let t = choose|t: int| 0 <= t < letters@.len() && letters@[t] == x;
                assert(keys@[t].2 == x);
            }
            if ord@.contains(x) {
                let t = choose|t: int| 0 <= t < keys@.len() && keys@[t].2 == x;
                assert(letters@[t] == x);
            }
        }
    }
    ord
}

/// The letters of `letters` in increasing seeded-weight order.
fn rank_by_weight(letters: &Vec<usize>, seed: u64, sig: u64) -> (ord: Vec<usize>)
    requires
        forall|a: int, b: int| 0 <= a < b < letters@.len() ==> letters@[a] < letters@[b],
    ensures
        ord@.len() == letters@.len(),
        ranked(ord@, letters@, weight_rank_key(seed, sig)),
{
    let ghost key = weight_rank_key(seed, sig);
    let mut keys: Vec<(u64, u64, usize)> = Vec::new();
    let mut i: usize = 0;
    while i < letters.len()
        invariant
            i <= letters@.len(),
            key == weight_rank_key(seed, sig),
            keys@.len() == i,
            forall|t: int| 0 <= t < i ==> #[trigger] keys@[t] == key(letters@[t]) && keys@[t].2 == letters@[t],
        decreases letters.len() - i,
    {
        let l = letters[i];
        keys.push((0u64, kge_letter_weight(seed, sig, l), l));
        i += 1;
    }
    proof {
        assert forall|i: int, j: int| 0 <= i < keys@.len() && 0 <= j < keys@.len() && i != j implies keys@[i].2 != keys@[j].2 by {
            if i < j {
                assert(letters@[i] < letters@[j]);
            } else {
                assert(letters@[j] < letters@[i]);
            }
        }
    }
    let ord = sort_letters_by(keys, Ghost(key));
    proof {
        assert forall|x: usize| ord@.contains(x) <==> letters@.contains(x) by {
            if letters@.contains(x) {
                let t = choose|t: int| 0 <= t < letters@.len() && letters@[t] == x;
                assert(keys@[t].2 == x);
            }
            if ord@.contains(x) {
                let t = choose|t: int| 0 <= t < keys@.len() && keys@[t].2 == x;
                assert(letters@[t] == x);
            }
        }
    }
    ord
}

/// The first `p` letters of `ord`, in increasing order.
fn sorted_prefix(ord: &Vec<usize>, p: usize) -> (pool: Vec<usize>)
    requires
        p <= ord@.len(),
        ord@.no_duplicates(),
    ensures
        increasing(pool@),
        pool@.len() == p,
        forall|x: usize| pool@.contains(x) <==> ord@.take(p as int).contains(x),
{
    let ghost key = plain_key();
    let mut keys: Vec<(u64, u64, usize)> = Vec::new();
    let mut i: usize = 0;
    while i < p
        invariant
            i <= p <= ord@.len(),
            key == plain_key(),
            keys@.len() == i,
            forall|t: int| 0 <= t < i ==> #[trigger] keys@[t] == key(ord@[t]) && keys@[t].2 == ord@[t],
        decreases p - i,
    {
        keys.push((0u64, 0u64, ord[i]));
        i += 1;
    }
    proof {
        assert forall|i: int, j: int| 0 <= i < keys@.len() && 0 <= j < keys@.len() && i != j implies keys@[i].2 != keys@[j].2 by {
            assert(ord@[i] != ord@[j]);
        }
    }
    let pool = sort_letters_by(keys, Ghost(key));
    proof {
        assert forall|x: usize| pool@.contains(x) <==> ord@.take(p as int).contains(x) by {
            if ord@.take(p as int).contains(x) {
                let t = choose|t: int| 0 <= t < p && ord@.take(p as int)[t] == x;
                assert(keys@[t].2 == x);
            }
            if pool@.contains(x) {
                let t = choose|t: int| 0 <= t < keys@.len() && keys@[t].2 == x;
                assert(ord@.take(p as int)[t] == x);
            }
        }
        assert forall|a: int, b: int| 0 <= a < b < pool@.len() implies pool@[a] < pool@[b] by {
            assert(lex3_lt(key(pool@[a]), key(pool@[b])));
        }
    }
    pool
}

/* ------------------------------------------------------------------ */
/* Statistics and forced constraints                                    */
/* ------------------------------------------------------------------ */

/// How many times each letter of the alphabet occurs in `w`.
pub open spec fn word_counts(syms: Seq<char>, w: Seq<char>) -> Seq<usize> {
    Seq::new(syms.len(), |l: int| occurrences(word_letters(syms, w), l) as usize)
}

/// Counts reduced to a byte the way a cast does (modulo 256).
pub open spec fn trunc_counts(c: Seq<usize>) -> Seq<u8> {
    Seq::new(c.len(), |l: int| (c[l] % 256) as u8)
}

/// Counts capped at 255.
pub open spec fn sat_counts(c: Seq<usize>) -> Seq<u8> {
    Seq::new(c.len(), |l: int| if c[l] < 255 { c[l] as u8 } else { 255u8 })
}

/// All-ones multiplicities.
pub open spec fn ones(n: nat) -> Seq<u8> {
    Seq::new(n, |l: int| 1u8)
}

/// The record a word contributes to the pair and triple statistics: its
/// letters and their counts taken modulo 256.
pub open spec fn word_record(syms: Seq<char>, w: Seq<char>) -> (Seq<usize>, Seq<u8>) {
    (positive_positions(word_counts(syms, w)), trunc_counts(word_counts(syms, w)))
}

pub open spec fn word_records(syms: Seq<char>, ws: Seq<String>) -> Seq<(Seq<usize>, Seq<u8>)> {
    Seq::new(ws.len(), |i: int| word_record(syms, ws[i]@))
}

/// The record a certificate contributes: its letters and counts capped at 255.
pub open spec fn cert_record(syms: Seq<char>, w: Seq<char>) -> (Seq<usize>, Seq<u8>) {
    (positive_positions(word_counts(syms, w)), sat_counts(word_counts(syms, w)))
}

pub open spec fn cert_records(syms: Seq<char>, ws: Seq<String>) -> Seq<(Seq<usize>, Seq<u8>)> {
    Seq::new(ws.len(), |i: int| cert_record(syms, ws[i]@))
}

/// A certificate's whole letter set, when it has at least four letters.
pub open spec fn cert_sel(syms: Seq<char>, w: Seq<char>) -> spec_fn(Seq<usize>) -> bool {
    |key: Seq<usize>| key.len() >= 4 && key == positive_positions(word_counts(syms, w))
}

pub open spec fn cert_key_records(syms: Seq<char>, ws: Seq<String>) -> Seq<(spec_fn(Seq<usize>) -> bool, Seq<u8>)> {
    Seq::new(ws.len(), |i: int| (cert_sel(syms, ws[i]@), sat_counts(word_counts(syms, ws[i]@))))
}

/// How many of a word's best-ranked letters subsets of size `k` draw on.
pub open spec fn plim(n: usize, k: int, m: int) -> int {
    min_nat(topk_spec(n, k as usize), m)
}

/// Subset sizes 4 to `k` all have enough ranked letters.
pub open spec fn hk_active(n: usize, m: int, k: int) -> bool {
    forall|k2: int| 4 <= k2 <= k ==> #[trigger] plim(n, k2, m) >= k2
}

/// The letter sets of four or more letters that a word contributes to the
/// statistics: for each size `k` from 4 up to `max_k` (at most `MAX_K`),
/// while every size so far has at least `k` candidates, the increasing
/// `k`-subsets of the word's `plim` best-ranked letters (higher count
/// first, then the seeded tie-break, then the letter).
pub open spec fn hk_sel(syms: Seq<char>, w: Seq<char>, max_k: usize, seed: u64) -> spec_fn(Seq<usize>) -> bool {
    |key: Seq<usize>| {
        let c = word_counts(syms, w);
        let present = positive_positions(c);
        let k = key.len() as int;
        let n = syms.len() as usize;
        &&& 4 <= k <= min_nat(max_k as int, MAX_K as int)
        &&& hk_active(n, present.len() as int, k)
        &&& exists|ord: Seq<usize>|
            ranked(ord, present, count_rank_key(c, seed)) && subset_key(ord.take(plim(n, k, present.len() as int)), k as nat, key)
    }
}

pub open spec fn hk_records(syms: Seq<char>, ws: Seq<String>, max_k: usize, seed: u64) -> Seq<(spec_fn(Seq<usize>) -> bool, Seq<u8>)> {
    Seq::new(ws.len(), |i: int| (hk_sel(syms, ws[i]@, max_k, seed), trunc_counts(word_counts(syms, ws[i]@))))
}

/// The seeded subsets a word contributes: when it has at least four
/// distinct letters, for each size `k` from 4 to `min(KGE_MAXK, m)` the
/// increasing `k`-subsets of its best `min(m, max(k, kge_topk_for(k)))`
/// letters by seeded weight, `m` being its number of distinct letters.
pub open spec fn kge_sel(syms: Seq<char>, w: Seq<char>, seed: u64) -> spec_fn(Seq<usize>) -> bool {
    |key: Seq<usize>| {
        let c = word_counts(syms, w);
        let present = positive_positions(c);
        let m = present.len() as int;
        let k = key.len() as int;
        let n = syms.len() as usize;
        let sig = kge_signature(sat_counts(c), c.len() as int);
        let top = min_nat(m, max_int(k, if 4 <= k <= 7 { n as int } else { k }));
        &&& m >= 4
        &&& 4 <= k <= min_nat(KGE_MAXK as int, m)
        &&& exists|ord: Seq<usize>| ranked(ord, present, weight_rank_key(seed, sig)) && subset_key(ord.take(top), k as nat, key)
    }
}

/// Largest count of letter `l` over the words.
pub open spec fn max_count(syms: Seq<char>, ws: Seq<String>, l: int) -> int
    decreases ws.len(),
{
    if ws.len() == 0 {
        0
    } else {
        max_int(max_count(syms, ws.drop_last(), l), word_counts(syms, ws.last()@)[l] as int)
    }
}

/// Total count of letter `l` over the words.
pub open spec fn total_count(syms: Seq<char>, ws: Seq<String>, l: int) -> int
    decreases ws.len(),
{
    if ws.len() == 0 {
        0
    } else {
        total_count(syms, ws.drop_last(), l) + word_counts(syms, ws.last()@)[l] as int
    }
}

/// Total number of scalars in the words.
pub open spec fn total_len(ws: Seq<String>) -> int
    decreases ws.len(),
{
    if ws.len() == 0 {
        0
    } else {
        total_len(ws.drop_last()) + ws.last()@.len()
    }
}

/// Corpus statistics: per letter the largest count in one word (`r1`) and
/// the total count (`f`); fronts for letter pairs, triples and larger sets.
pub struct Stats {
    pub r1: Vec<i32>,
    pub r2v: PairFronts,
    pub r3v: TripleFronts,
    pub rhv: KeyFronts,
    pub f: Vec<i64>,
    /// How many keys of four or more letters came in through forced constraints.
    pub rhv_forced_count: usize,
}

/// Constraints from Hall certificates, merged into the statistics after
/// they are built and never pruned.
pub struct ForcedHall {
    pub r2v: PairFronts,
    pub r3v: TripleFronts,
    pub rhv: KeyFronts,
}

impl ForcedHall {
    /// No forced constraints.
    pub fn new() -> (r: ForcedHall)
        ensures
            pair_models(pair_fronts(r.r2v), Seq::empty()),
            triple_models(triple_fronts(r.r3v), Seq::empty()),
            keyed_models(key_fronts(r.rhv), Seq::empty()),
    {
        let r = ForcedHall { r2v: PairFronts::new(), r3v: TripleFronts::new(), rhv: KeyFronts::new() };
        r
    }

    /// Add one certificate (a multiset of letters, counts capped at 255):
    /// its whole letter set when it has four or more letters, and its
    /// projections on every pair and every triple of its letters.
    pub fn add_certificate(&mut self, alpha: &Alphabet, cert: &str)
        requires
            key_fronts_wf(key_fronts(old(self).rhv)),
        ensures
            pairs_inserted(pair_fronts(old(self).r2v), pair_fronts(final(self).r2v), cert_record(alpha@, cert@).1,
                cert_record(alpha@, cert@).0, kat(cert_record(alpha@, cert@).0, cert_record(alpha@, cert@).0.len() as int), 0),
            triples_inserted(triple_fronts(old(self).r3v), triple_fronts(final(self).r3v), cert_record(alpha@, cert@).1,
                cert_record(alpha@, cert@).0, kat(cert_record(alpha@, cert@).0, cert_record(alpha@, cert@).0.len() as int), 0, 0),
            keys_inserted(key_fronts(old(self).rhv), key_fronts(final(self).rhv), cert_record(alpha@, cert@).1,
                cert_sel(alpha@, cert@)),
            key_fronts_wf(key_fronts(final(self).rhv)),
    {
        let ghost syms = alpha@;
        let ghost m0 = key_fronts(self.rhv);
        let counts = letter_counts(alpha, cert);
        let n = counts.len();
        let mut cnt: Vec<u8> = Vec::new();
        let mut i: usize = 0;
        while i < n
            invariant
                i <= n,
                n == counts@.len(),
                counts@ =~= word_counts(syms, cert@),
                cnt@.len() == i,
                forall|l: int| 0 <= l < i ==> #[trigger] cnt@[l] == sat_counts(counts@)[l],
            decreases n - i,
        {
            let c = counts[i];
            cnt.push(if c < 255 { c as u8 } else { 255u8 });
            i += 1;
        }
        assert(cnt@ =~= sat_counts(counts@));
        let key = present_letters(&counts);
        proof {
            lemma_positive_positions(counts@);
        }
        let ghost sel = cert_sel(syms, cert@);
        if key.len() >= 4 {
            let ghost k = key@;
            let mut f: Vec<Vec<u8>> = match self.rhv.remove(&key) {
                Some(v) => v,
                None => Vec::new(),
            };
            let mut vals: Vec<u8> = Vec::new();
            let mut j: usize = 0;
            while j < key.len()
                invariant
                    j <= key@.len(),
                    forall|t: int| 0 <= t < key@.len() ==> (#[trigger] key@[t] as int) < cnt@.len(),
                    vals@ == key_vals(cnt@, key@.take(j as int)),
                decreases key.len() - j,
            {
                vals.push(cnt[key[j]]);
                j += 1;
                assert(vals@ =~= key_vals(cnt@, key@.take(j as int)));
            }
            assert(key@.take(key@.len() as int) =~= key@);
            proof {
                assert(vec_front(f@) == key_front_at(m0, k)) by {
                    if !m0.contains_key(k) {
                        assert(vec_front(f@) =~= Seq::<Seq<u8>>::empty());
                    }
                }
            }
            insert_maximal_vec(&mut f, vals);
            self.rhv.insert(key.clone(), f);
            proof {
                let m1 = key_fronts(self.rhv);
                assert forall|kk: Seq<usize>| #[trigger] sel(kk) == (kk == k) by {}
                assert(keys_inserted(m0, m1, cnt@, sel));
                lemma_keys_inserted_wf(m0, m1, cnt@, sel);
            }
        } else {
            proof {
                assert forall|kk: Seq<usize>| !#[trigger] sel(kk) by {}
                lemma_keys_inserted_empty(m0, cnt@, sel);
            }
        }
        insert_pairs(&mut self.r2v, &key, &cnt);
        insert_triples(&mut self.r3v, &key, &cnt);
    }

    /// Add every certificate of `certs`, in order.  Whatever records the
    /// forced maps stood for before, they afterwards stand for those and the
    /// certificates' records.
    pub fn add_many(&mut self, alpha: &Alphabet, certs: &[String])
        requires
            key_fronts_wf(key_fronts(old(self).rhv)),
        ensures
            key_fronts_wf(key_fronts(final(self).rhv)),
            forall|recs: Seq<(Seq<usize>, Seq<u8>)>| #[trigger] pair_models(pair_fronts(old(self).r2v), recs)
                ==> pair_models(pair_fronts(final(self).r2v), recs + cert_records(alpha@, certs@)),
            forall|recs: Seq<(Seq<usize>, Seq<u8>)>| #[trigger] triple_models(triple_fronts(old(self).r3v), recs)
                ==> triple_models(triple_fronts(final(self).r3v), recs + cert_records(alpha@, certs@)),
            forall|recs: Seq<(spec_fn(Seq<usize>) -> bool, Seq<u8>)>| #[trigger] keyed_models(key_fronts(old(self).rhv), recs)
                ==> keyed_models(key_fronts(final(self).rhv), recs + cert_key_records(alpha@, certs@)),
    {
        let ghost syms = alpha@;
        let ghost p0 = pair_fronts(self.r2v);
        let ghost t0 = triple_fronts(self.r3v);
        let ghost k0 = key_fronts(self.rhv);
        let mut i: usize = 0;
        while i < certs.len()
            invariant
                i <= certs@.len(),
                syms == alpha@,
                p0 == pair_fronts(old(self).r2v),
                t0 == triple_fronts(old(self).r3v),
                k0 == key_fronts(old(self).rhv),
                key_fronts_wf(key_fronts(self.rhv)),
                forall|recs: Seq<(Seq<usize>, Seq<u8>)>| #[trigger] pair_models(p0, recs)
                    ==> pair_models(pair_fronts(self.r2v), recs + cert_records(syms, certs@.take(i as int))),
                forall|recs: Seq<(Seq<usize>, Seq<u8>)>| #[trigger] triple_models(t0, recs)
                    ==> triple_models(triple_fronts(self.r3v), recs + cert_records(syms, certs@.take(i as int))),
                forall|recs: Seq<(spec_fn(Seq<usize>) -> bool, Seq<u8>)>| #[trigger] keyed_models(k0, recs)
                    ==> keyed_models(key_fronts(self.rhv), recs + cert_key_records(syms, certs@.take(i as int))),
            decreases certs.len() - i,
        {
            let ghost pb = pair_fronts(self.r2v);
            let ghost tb = triple_fronts(self.r3v);
            let ghost kb = key_fronts(self.rhv);
            self.add_certificate(alpha, certs[i].as_str());
            proof {
                let c = certs@[i as int]@;
                let rec = cert_record(syms, c);
                assert(cert_records(syms, certs@.take(i + 1)) =~= cert_records(syms, certs@.take(i as int)).push(rec));
                assert(cert_key_records(syms, certs@.take(i + 1)) =~= cert_key_records(syms, certs@.take(i as int)).push(
                    (cert_sel(syms, c), sat_counts(word_counts(syms, c)))));
                assert forall|recs: Seq<(Seq<usize>, Seq<u8>)>| #[trigger] pair_models(p0, recs)
                    implies pair_models(pair_fronts(self.r2v), recs + cert_records(syms, certs@.take(i + 1))) by {
                    let r0 = recs + cert_records(syms, certs@.take(i as int));
                    law_pairs_extend(pb, pair_fronts(self.r2v), r0, rec.0, rec.1);
                    assert(r0.push(rec) =~= recs + cert_records(syms, certs@.take(i + 1)));
                }
                assert forall|recs: Seq<(Seq<usize>, Seq<u8>)>| #[trigger] triple_models(t0, recs)
                    implies triple_models(triple_fronts(self.r3v), recs + cert_records(syms, certs@.take(i + 1))) by {
                    let r0 = recs + cert_records(syms, certs@.take(i as int));
                    law_triples_extend(tb, triple_fronts(self.r3v), r0, rec.0, rec.1);
                    assert(r0.push(rec) =~= recs + cert_records(syms, certs@.take(i + 1)));
                }
                assert forall|recs: Seq<(spec_fn(Seq<usize>) -> bool, Seq<u8>)>| #[trigger] keyed_models(k0, recs)
                    implies keyed_models(key_fronts(self.rhv), recs + cert_key_records(syms, certs@.take(i + 1))) by {
                    let r0 = recs + cert_key_records(syms, certs@.take(i as int));
                    law_keys_extend(kb, key_fronts(self.rhv), r0, cert_sel(syms, c), sat_counts(word_counts(syms, c)));
                    assert(r0.push((cert_sel(syms, c), sat_counts(word_counts(syms, c)))) =~= recs + cert_key_records(syms, certs@.take(i + 1)));
                }
            }
            i += 1;
        }
        assert(certs@.take(certs@.len() as int) =~= certs@);
    }

    /// Number of pair, triple and larger keys.
    pub fn counts(&self) -> (r: (usize, usize, usize))
        ensures
            r.0 == pair_fronts(self.r2v).dom().len(),
            r.1 == triple_fronts(self.r3v).dom().len(),
            r.2 == key_fronts(self.rhv).dom().len(),
    {
        (self.r2v.len(), self.r3v.len(), self.rhv.len())
    }
}

proof fn lemma_keys_inserted_congr(
    old: Map<Seq<usize>, Seq<Seq<u8>>>,
    new: Map<Seq<usize>, Seq<Seq<u8>>>,
    cnt: Seq<u8>,
    a: spec_fn(Seq<usize>) -> bool,
    b: spec_fn(Seq<usize>) -> bool,
)
    requires
        keys_inserted(old, new, cnt, a),
        forall|key: Seq<usize>| #[trigger] a(key) == b(key),
    ensures
        keys_inserted(old, new, cnt, b),
{
    assert forall|key: Seq<usize>| #[trigger] new.contains_key(key) <==> (old.contains_key(key) || b(key)) by {
        assert(a(key) == b(key));
    }
    assert forall|key: Seq<usize>| #[trigger] b(key) implies new[key] == front_insert(key_front_at(old, key), key_vals(cnt, key)) by {
        assert(a(key));
    }
    assert forall|key: Seq<usize>| !b(key) && #[trigger] old.contains_key(key) implies new[key] == old[key] by {
        assert(a(key) == b(key));
    }
}

proof fn lemma_rec_sel_top(pool: Seq<usize>, k: int, prefix: Seq<usize>, key: Seq<usize>)
    requires
        prefix.len() == 0,
    ensures
        rec_sel(pool, 0, 0, k, prefix, key) == (key.len() == k && subset_key(pool, k as nat, key)),
{
    assert(key.take(0) =~= prefix);
    if key.len() == k && subset_key(pool, k as nat, key) {
        assert forall|j: int| 0 <= j < k implies #[trigger] in_pool_from(pool, 0, key[j]) by {
            assert(pool.contains(key[j]));
            let t = choose|t: int| 0 <= t < pool.len() && pool[t] == key[j];
        }
    }
    if rec_sel(pool, 0, 0, k, prefix, key) {
        assert forall|j: int| 0 <= j < key.len() implies pool.contains(#[trigger] key[j]) by {
            assert(in_pool_from(pool, 0, key[j]));
            let t = choose|t: int| 0 <= t < pool.len() && pool[t] == key[j];
        }
    }
}

proof fn lemma_word_counts_bound(syms: Seq<char>, w: Seq<char>, l: int)
    requires
        0 <= l < syms.len(),
        w.len() <= usize::MAX,
    ensures
        word_counts(syms, w)[l] <= w.len(),
        word_counts(syms, w)[l] == occurrences(word_letters(syms, w), l),
{
    lemma_occurrences_bound(word_letters(syms, w), l);
    lemma_word_letters_bounded(syms, w);
}

proof fn lemma_total_count_bound(syms: Seq<char>, ws: Seq<String>, l: int)
    requires
        0 <= l < syms.len(),
        forall|i: int| 0 <= i < ws.len() ==> (#[trigger] ws[i])@.len() <= usize::MAX,
    ensures
        0 <= total_count(syms, ws, l) <= total_len(ws),
        0 <= max_count(syms, ws, l),
    decreases ws.len(),
{
    if ws.len() > 0 {
        let d = ws.drop_last();
        assert forall|i: int| 0 <= i < d.len() implies (#[trigger] d[i])@.len() <= usize::MAX by {
            assert(d[i] == ws[i]);
        }
        lemma_total_count_bound(syms, d, l);
        assert(ws.last() == ws[ws.len() - 1]);
        lemma_word_counts_bound(syms, ws.last()@, l);
    }
}

proof fn lemma_total_len_prefix(ws: Seq<String>, i: int)
    requires
        0 <= i <= ws.len(),
    ensures
        total_len(ws.take(i)) <= total_len(ws),
    decreases ws.len() - i,
{
    if i < ws.len() {
        lemma_total_len_prefix(ws, i + 1);
        assert(ws.take(i + 1).drop_last() =~= ws.take(i));
    } else {
        assert(ws.take(i) =~= ws);
    }
}

/// Insert a word's letter sets of four or more letters into `rhv`.
fn add_word_hk(
    rhv: &mut KeyFronts,
    ord: &Vec<usize>,
    cnt8: &Vec<u8>,
    n: usize,
    max_k: usize,
    Ghost(syms): Ghost<Seq<char>>,
    Ghost(w): Ghost<Seq<char>>,
    Ghost(seed): Ghost<u64>,
)
    requires
        n == syms.len(),
        cnt8@ == trunc_counts(word_counts(syms, w)),
        ranked(ord@, positive_positions(word_counts(syms, w)), count_rank_key(word_counts(syms, w), seed)),
        ord@.len() == positive_positions(word_counts(syms, w)).len(),
        key_fronts_wf(key_fronts(*old(rhv))),
    ensures
        key_fronts_wf(key_fronts(*final(rhv))),
        keys_inserted(key_fronts(*old(rhv)), key_fronts(*final(rhv)), cnt8@, hk_sel(syms, w, max_k, seed)),
{
    let ghost c = word_counts(syms, w);
    let ghost present = positive_positions(c);
    let ghost key = count_rank_key(c, seed);
    let ghost sel = hk_sel(syms, w, max_k, seed);
    let ghost m0 = key_fronts(*rhv);
    proof {
        lemma_positive_positions(c);
        assert(ord@.no_duplicates()) by {
            assert forall|i: int, j: int| 0 <= i < ord@.len() && 0 <= j < ord@.len() && i != j implies ord@[i] != ord@[j] by {
                if i < j {
                    assert(lex3_lt(key(ord@[i]), key(ord@[j])));
                } else {
                    assert(lex3_lt(key(ord@[j]), key(ord@[i])));
                }
            }
        }
        assert forall|t: int| 0 <= t < ord@.len() implies (#[trigger] ord@[t] as int) < cnt8@.len() by {
            assert(ord@.contains(ord@[t]));
            assert(present.contains(ord@[t]));
        }
    }
    let kmax: usize = if max_k < MAX_K { max_k } else { MAX_K };
    let mut k: usize = 4;
    proof {
        let s0 = |kk: Seq<usize>| sel(kk) && kk.len() < k;
        assert forall|kk: Seq<usize>| !#[trigger] s0(kk) by {}
        lemma_keys_inserted_empty(m0, cnt8@, s0);
    }
    while k <= kmax
        invariant
            4 <= k,
            k <= kmax + 1 || k == 4,
            kmax == min_nat(max_k as int, MAX_K as int),
            m0 == key_fronts(*old(rhv)),
            n == syms.len(),
            c == word_counts(syms, w),
            present == positive_positions(c),
            key == count_rank_key(c, seed),
            sel == hk_sel(syms, w, max_k, seed),
            cnt8@ == trunc_counts(c),
            ranked(ord@, present, key),
            ord@.len() == present.len(),
            ord@.no_duplicates(),
            forall|t: int| 0 <= t < ord@.len() ==> (#[trigger] ord@[t] as int) < cnt8@.len(),
            hk_active(n, present.len() as int, k - 1),
            key_fronts_wf(key_fronts(*rhv)),
            keys_inserted(m0, key_fronts(*rhv), cnt8@, |kk: Seq<usize>| sel(kk) && kk.len() < k),
        decreases kmax + 1 - k,
    {
        let t = topk_for(n, k);
        let p = if t < ord.len() { t } else { ord.len() };
        if p < k {
            proof {
                assert(plim(n, k as int, present.len() as int) == p);
                assert forall|kk: Seq<usize>| #[trigger] sel(kk) == (sel(kk) && kk.len() < k) by {
                    if sel(kk) && kk.len() >= k {
                        assert(hk_active(n, present.len() as int, kk.len() as int));
                        assert(plim(n, k as int, present.len() as int) >= k);
                    }
                }
                let m1 = key_fronts(*rhv);
                let a = |kk: Seq<usize>| sel(kk) && kk.len() < k;
                assert forall|kk: Seq<usize>| #[trigger] a(kk) == sel(kk) by {
                    assert(sel(kk) == (sel(kk) && kk.len() < k));
                }
                assert(keys_inserted(m0, m1, cnt8@, a));
                lemma_keys_inserted_congr(m0, m1, cnt8@, a, sel);
                assert(keys_inserted(m0, m1, cnt8@, sel));
                assert(sel == hk_sel(syms, w, max_k, seed));
            }
            return;
        }
        let ghost mid = key_fronts(*rhv);
        let pool = sorted_prefix(ord, p);
        let mut cur: Vec<usize> = Vec::new();
        let mut z: usize = 0;
        while z < k
            invariant
                z <= k,
                cur@.len() == z,
            decreases k - z,
        {
            cur.push(0);
            z += 1;
        }
        let ghost pre = cur@.take(0);
        proof {
            assert forall|t2: int| 0 <= t2 < pool@.len() implies (#[trigger] pool@[t2] as int) < cnt8@.len() by {
                assert(pool@.contains(pool@[t2]));
                assert(ord@.take(p as int).contains(pool@[t2]));
                let u = choose|u: int| 0 <= u < p && ord@.take(p as int)[u] == pool@[t2];
                assert(ord@[u] == pool@[t2]);
            }
            assert(increasing(cur@.take(0))) by {
                assert(cur@.take(0).len() == 0);
            }
        }
        insert_subsets_rec(&pool, 0, 0, k, &mut cur, cnt8, rhv);
        proof {
            let m1 = key_fronts(*rhv);
            assert(plim(n, k as int, present.len() as int) == p);
            assert(hk_active(n, present.len() as int, k as int)) by {
                assert forall|k2: int| 4 <= k2 <= k implies #[trigger] plim(n, k2, present.len() as int) >= k2 by {
                    if k2 < k {
                        assert(hk_active(n, present.len() as int, k - 1));
                    }
                }
            }
            let a = |kk: Seq<usize>| sel(kk) && kk.len() < k;
            let b = |kk: Seq<usize>| rec_sel(pool@, 0, 0, k as int, pre, kk);
            let cc = |kk: Seq<usize>| sel(kk) && kk.len() < k + 1;
            assert forall|kk: Seq<usize>| #[trigger] b(kk) == (sel(kk) && kk.len() == k) by {
                lemma_rec_sel_top(pool@, k as int, pre, kk);
                if b(kk) {
                    assert forall|j: int| 0 <= j < kk.len() implies ord@.take(p as int).contains(#[trigger] kk[j]) by {
                        assert(pool@.contains(kk[j]));
                    }
                    assert(ranked(ord@, present, key) && subset_key(ord@.take(p as int), k as nat, kk));
                    assert(sel(kk));
                }
                if sel(kk) && kk.len() == k {
                    let o2 = choose|o2: Seq<usize>| ranked(o2, present, key) && subset_key(o2.take(plim(n, k as int, present.len() as int)), k as nat, kk);
                    lemma_sorted_unique(ord@, o2, key);
                    assert forall|j: int| 0 <= j < kk.len() implies pool@.contains(#[trigger] kk[j]) by {
                        assert(ord@.take(p as int).contains(kk[j]));
                    }
                }
            }
            assert forall|kk: Seq<usize>| !(#[trigger] a(kk) && b(kk)) by {}
            assert forall|kk: Seq<usize>| #[trigger] cc(kk) == (a(kk) || b(kk)) by {}
            lemma_keys_inserted_compose(m0, mid, m1, cnt8@, a, b, cc);
        }
        k += 1;
    }
    proof {
        let m1 = key_fronts(*rhv);
        let a = |kk: Seq<usize>| sel(kk) && kk.len() < k;
        assert forall|kk: Seq<usize>| #[trigger] a(kk) == sel(kk) by {}
        lemma_keys_inserted_congr(m0, m1, cnt8@, a, sel);
    }
}

impl Stats {
    /// A copy with the same contents.
    pub fn duplicate(&self) -> (r: Stats)
        ensures
            r.r1@ == self.r1@,
            r.f@ == self.f@,
            pair_fronts(r.r2v) == pair_fronts(self.r2v),
            triple_fronts(r.r3v) == triple_fronts(self.r3v),
            key_fronts(r.rhv) == key_fronts(self.rhv),
            r.rhv_forced_count == self.rhv_forced_count,
    {
        let mut r1: Vec<i32> = Vec::new();
        let mut i: usize = 0;
        while i < self.r1.len()
            invariant
                i <= self.r1@.len(),
                r1@ == self.r1@.take(i as int),
            decreases self.r1.len() - i,
        {
            r1.push(self.r1[i]);
            i += 1;
            assert(r1@ =~= self.r1@.take(i as int));
        }
        assert(self.r1@.take(self.r1@.len() as int) =~= self.r1@);
        let mut f: Vec<i64> = Vec::new();
        let mut j: usize = 0;
        while j < self.f.len()
            invariant
                j <= self.f@.len(),
                f@ == self.f@.take(j as int),
            decreases self.f.len() - j,
        {
            f.push(self.f[j]);
            j += 1;
            assert(f@ =~= self.f@.take(j as int));
        }
        assert(self.f@.take(self.f@.len() as int) =~= self.f@);
        Stats {
            r1,
            r2v: self.r2v.duplicate(),
            r3v: self.r3v.duplicate(),
            rhv: self.rhv.duplicate(),
            f,
            rhv_forced_count: self.rhv_forced_count,
        }
    }

    /// Statistics of no words over an alphabet of `n` letters.
    pub fn empty(n: usize) -> (s: Stats)
        ensures
            s.r1@.len() == n,
            s.f@.len() == n,
            forall|l: int| 0 <= l < n ==> #[trigger] s.r1@[l] == 0,
            forall|l: int| 0 <= l < n ==> #[trigger] s.f@[l] == 0,
            pair_models(pair_fronts(s.r2v), Seq::empty()),
            triple_models(triple_fronts(s.r3v), Seq::empty()),
            keyed_models(key_fronts(s.rhv), Seq::empty()),
            s.rhv_forced_count == 0,
    {
        let mut r1: Vec<i32> = Vec::new();
        let mut f: Vec<i64> = Vec::new();
        let mut i: usize = 0;
        while i < n
            invariant
                i <= n,
                r1@.len() == i,
                f@.len() == i,
                forall|l: int| 0 <= l < i ==> #[trigger] r1@[l] == 0,
                forall|l: int| 0 <= l < i ==> #[trigger] f@[l] == 0,
            decreases n - i,
        {
            r1.push(0);
            f.push(0);
            i += 1;
        }
        Stats { r1, r2v: PairFronts::new(), r3v: TripleFronts::new(), rhv: KeyFronts::new(), f, rhv_forced_count: 0 }
    }
}

/// Statistics of a word list: per letter the largest count in one word and
/// the total count; for every pair and every triple of letters that occur
/// together in a word, the Pareto front of their joint counts (modulo 256);
/// and for letter sets of four or more letters, the fronts over the subsets
/// that `hk_sel` selects for each word.
pub fn compute_letter_stats_k_seeded(alpha: &Alphabet, words: &[String], max_k: usize, tie_seed: u64) -> (s: Stats)
    requires
        forall|i: int| 0 <= i < words@.len() ==> (#[trigger] words@[i])@.len() < i32::MAX,
        total_len(words@) <= i64::MAX,
    ensures
        s.r1@.len() == alpha@.len(),
        s.f@.len() == alpha@.len(),
        forall|l: int| 0 <= l < alpha@.len() ==> #[trigger] s.r1@[l] == max_count(alpha@, words@, l),
        forall|l: int| 0 <= l < alpha@.len() ==> #[trigger] s.f@[l] == total_count(alpha@, words@, l),
        pair_models(pair_fronts(s.r2v), if max_k >= 2 { word_records(alpha@, words@) } else { Seq::empty() }),
        triple_models(triple_fronts(s.r3v), if max_k >= 3 { word_records(alpha@, words@) } else { Seq::empty() }),
        keyed_models(key_fronts(s.rhv), hk_records(alpha@, words@, max_k, tie_seed)),
        s.rhv_forced_count == 0,
{
    let ghost syms = alpha@;
    let n = crate::alphabet::n_letters(alpha);
    let mut st = Stats::empty(n);
    let mut i: usize = 0;
    while i < words.len()
        invariant
            i <= words@.len(),
            syms == alpha@,
            n == syms.len(),
            forall|t: int| 0 <= t < words@.len() ==> (#[trigger] words@[t])@.len() < i32::MAX,
            total_len(words@) <= i64::MAX,
            st.r1@.len() == n,
            st.f@.len() == n,
            forall|l: int| 0 <= l < n ==> #[trigger] st.r1@[l] == max_count(syms, words@.take(i as int), l),
            forall|l: int| 0 <= l < n ==> #[trigger] st.f@[l] == total_count(syms, words@.take(i as int), l),
            pair_models(pair_fronts(st.r2v), if max_k >= 2 { word_records(syms, words@.take(i as int)) } else { Seq::empty() }),
            triple_models(triple_fronts(st.r3v), if max_k >= 3 { word_records(syms, words@.take(i as int)) } else { Seq::empty() }),
            keyed_models(key_fronts(st.rhv), hk_records(syms, words@.take(i as int), max_k, tie_seed)),
            st.rhv_forced_count == 0,
        decreases words.len() - i,
    {
        let w = words[i].as_str();
        let ghost wv = words@[i as int]@;
        let ghost ws1 = words@.take(i + 1);
        proof {
            assert(ws1.drop_last() =~= words@.take(i as int));
            assert(ws1.last() == words@[i as int]);
            lemma_total_len_prefix(words@, i + 1);
            assert forall|t: int| 0 <= t < ws1.len() implies (#[trigger] ws1[t])@.len() <= usize::MAX by {
                assert(ws1[t] == words@[t]);
            }
        }
        let counts = letter_counts(alpha, w);
        proof {
            assert(counts@ =~= word_counts(syms, wv));
            lemma_positive_positions(counts@);
        }
        // singles: largest count and total count per letter
        let mut l: usize = 0;
        while l < n
            invariant
                l <= n,
                n == syms.len(),
                counts@ == word_counts(syms, wv),
                wv.len() < i32::MAX,
                total_len(ws1) <= i64::MAX,
                ws1.len() > 0,
                ws1.drop_last() == words@.take(i as int),
                ws1.last()@ == wv,
                forall|t: int| 0 <= t < ws1.len() ==> (#[trigger] ws1[t])@.len() <= usize::MAX,
                pair_models(pair_fronts(st.r2v), if max_k >= 2 { word_records(syms, words@.take(i as int)) } else { Seq::empty() }),
                triple_models(triple_fronts(st.r3v), if max_k >= 3 { word_records(syms, words@.take(i as int)) } else { Seq::empty() }),
                keyed_models(key_fronts(st.rhv), hk_records(syms, words@.take(i as int), max_k, tie_seed)),
                st.rhv_forced_count == 0,
                st.r1@.len() == n,
                st.f@.len() == n,
                forall|x: int| l <= x < n ==> #[trigger] st.r1@[x] == max_count(syms, words@.take(i as int), x),
                forall|x: int| l <= x < n ==> #[trigger] st.f@[x] == total_count(syms, words@.take(i as int), x),
                forall|x: int| 0 <= x < l ==> #[trigger] st.r1@[x] == max_count(syms, ws1, x),
                forall|x: int| 0 <= x < l ==> #[trigger] st.f@[x] == total_count(syms, ws1, x),
            decreases n - l,
        {
            proof {
                lemma_word_counts_bound(syms, wv, l as int);
                lemma_total_count_bound(syms, ws1, l as int);
            }
            let c = counts[l] as i32;
            if c > st.r1[l] {
                st.r1.set(l, c);
            }
            let fl = st.f[l];
            st.f.set(l, fl + c as i64);
            l += 1;
        }
        let key = present_letters(&counts);
        let mut cnt8: Vec<u8> = Vec::new();
        let mut j: usize = 0;
        while j < n
            invariant
                j <= n,
                n == counts@.len(),
                cnt8@.len() == j,
                forall|x: int| 0 <= x < j ==> #[trigger] cnt8@[x] == trunc_counts(counts@)[x],
            decreases n - j,
        {
            cnt8.push((counts[j] % 256) as u8);
            j += 1;
        }
        assert(cnt8@ =~= trunc_counts(counts@));
        let ghost rec = word_record(syms, wv);
        if max_k >= 2 {
            let ghost before = pair_fronts(st.r2v);
            insert_pairs(&mut st.r2v, &key, &cnt8);
            proof {
                law_pairs_extend(before, pair_fronts(st.r2v), word_records(syms, words@.take(i as int)), key@, cnt8@);
                assert(word_records(syms, words@.take(i as int)).push((key@, cnt8@)) =~= word_records(syms, ws1));
            }
        }
        if max_k >= 3 {
            let ghost before = triple_fronts(st.r3v);
            insert_triples(&mut st.r3v, &key, &cnt8);
            proof {
                law_triples_extend(before, triple_fronts(st.r3v), word_records(syms, words@.take(i as int)), key@, cnt8@);
                assert(word_records(syms, words@.take(i as int)).push((key@, cnt8@)) =~= word_records(syms, ws1));
            }
        }
        let ord = rank_by_counts(&key, &counts, tie_seed);
        let ghost before = key_fronts(st.rhv);
        add_word_hk(&mut st.rhv, &ord, &cnt8, n, max_k, Ghost(syms), Ghost(wv), Ghost(tie_seed));
        proof {
            law_keys_extend(before, key_fronts(st.rhv), hk_records(syms, words@.take(i as int), max_k, tie_seed),
                hk_sel(syms, wv, max_k, tie_seed), cnt8@);
            assert(hk_records(syms, words@.take(i as int), max_k, tie_seed).push((hk_sel(syms, wv, max_k, tie_seed), cnt8@))
                =~= hk_records(syms, ws1, max_k, tie_seed));
        }
        i += 1;
    }
    assert(words@.take(words@.len() as int) =~= words@);
    st
}

/* ------------------------------------------------------------------ */
/* Merging front maps                                                   */
/* ------------------------------------------------------------------ */

/// Insert every vector of `src` into the front `f`; the front then covers
/// what it covered and what `src` covers.
fn insert_all_u8<const N: usize>(f: &mut Vec<[u8; N]>, src: &Vec<[u8; N]>)
    requires
        antichain(array_front(old(f)@)),
    ensures
        antichain(array_front(final(f)@)),
        forall|x: Seq<u8>| x.len() == N ==> (covered(array_front(final(f)@), x) <==> (covered(array_front(old(f)@), x)
            || covered(array_front(src@), x))),
{
    let ghost f0 = array_front(f@);
    let mut j: usize = 0;
    while j < src.len()
        invariant
            j <= src@.len(),
            f0 == array_front(old(f)@),
            antichain(array_front(f@)),
            forall|x: Seq<u8>| x.len() == N ==> (covered(array_front(f@), x) <==> (covered(f0, x) || covered(
                array_front(src@.take(j as int)),
                x,
            ))),
        decreases src.len() - j,
    {
        let ghost fb = array_front(f@);
        let v: [u8; N] = src[j];
        insert_maximal_u8(f, v);
        proof {
            lemma_array_front_uniform(old(f)@);
            lemma_array_front_uniform(src@);
            assert(uniform(fb, v@.len())) by {
                assert forall|k: int| 0 <= k < fb.len() implies (#[trigger] fb[k]).len() == v@.len() by {}
            }
            law_front_insert(fb, v@);
            let tj = array_front(src@.take(j as int));
            let tj1 = array_front(src@.take(j + 1));
            assert forall|x: Seq<u8>| x.len() == N implies (covered(tj1, x) <==> (covered(tj, x) || dominates(v@, x))) by {
                if covered(tj1, x) {
                    let k = choose|k: int| 0 <= k < tj1.len() && #[trigger] dominates(tj1[k], x);
                    if k < j {
                        assert(tj1[k] == tj[k]);
                    } else {
                        assert(tj1[k] == v@);
                    }
                }
                if covered(tj, x) {
                    let k = choose|k: int| 0 <= k < tj.len() && #[trigger] dominates(tj[k], x);
                    assert(tj1[k] == tj[k]);
                }
                if dominates(v@, x) {
                    assert(tj1[j as int] == v@);
                }
            }
        }
        j += 1;
    }
    assert(src@.take(src@.len() as int) =~= src@);
}

/// Insert every vector of `src` into the front `f` of vectors of one length.
fn insert_all_vec(f: &mut Vec<Vec<u8>>, src: &Vec<Vec<u8>>, Ghost(n): Ghost<nat>)
    requires
        antichain(vec_front(old(f)@)),
        uniform(vec_front(old(f)@), n),
        uniform(vec_front(src@), n),
    ensures
        antichain(vec_front(final(f)@)),
        uniform(vec_front(final(f)@), n),
        forall|x: Seq<u8>| x.len() == n ==> (covered(vec_front(final(f)@), x) <==> (covered(vec_front(old(f)@), x)
            || covered(vec_front(src@), x))),
{
    let ghost f0 = vec_front(f@);
    let mut j: usize = 0;
    while j < src.len()
        invariant
            j <= src@.len(),
            f0 == vec_front(old(f)@),
            uniform(vec_front(src@), n),
            antichain(vec_front(f@)),
            uniform(vec_front(f@), n),
            forall|x: Seq<u8>| x.len() == n ==> (covered(vec_front(f@), x) <==> (covered(f0, x) || covered(
                vec_front(src@.take(j as int)),
                x,
            ))),
        decreases src.len() - j,
    {
        let ghost fb = vec_front(f@);
        let v = src[j].clone();
        proof {
            assert(v@ == vec_front(src@)[j as int]);
        }
        insert_maximal_vec(f, v);
        proof {
            law_front_insert(fb, v@);
            let tj = vec_front(src@.take(j as int));
            let tj1 = vec_front(src@.take(j + 1));
            assert forall|x: Seq<u8>| x.len() == n implies (covered(tj1, x) <==> (covered(tj, x) || dominates(v@, x))) by {
                if covered(tj1, x) {
                    let k = choose|k: int| 0 <= k < tj1.len() && #[trigger] dominates(tj1[k], x);
                    if k < j {
                        assert(tj1[k] == tj[k]);
                    } else {
                        assert(tj1[k] == v@);
                    }
                }
                if covered(tj, x) {
                    let k = choose|k: int| 0 <= k < tj.len() && #[trigger] dominates(tj[k], x);
                    assert(tj1[k] == tj[k]);
                }
                if dominates(v@, x) {
                    assert(tj1[j as int] == v@);
                }
            }
        }
        j += 1;
    }
    assert(src@.take(src@.len() as int) =~= src@);
}

/// Every stored front is an antichain.
pub open spec fn pair_fronts_wf(m: Map<(usize, usize), Seq<[u8; 2]>>) -> bool {
    forall|p: (usize, usize)| #[trigger] m.contains_key(p) ==> antichain(array_front(m[p]))
}

/// Every stored front is an antichain.
pub open spec fn triple_fronts_wf(m: Map<(usize, usize, usize), Seq<[u8; 3]>>) -> bool {
    forall|t: (usize, usize, usize)| #[trigger] m.contains_key(t) ==> antichain(array_front(m[t]))
}

/// `new` merges the fronts of `src` under the keys of `done` into those of `old`.
pub open spec fn pairs_merged(
    old: Map<(usize, usize), Seq<[u8; 2]>>,
    src: Map<(usize, usize), Seq<[u8; 2]>>,
    new: Map<(usize, usize), Seq<[u8; 2]>>,
    done: Set<(usize, usize)>,
) -> bool {
    &&& forall|p: (usize, usize)| #[trigger] new.contains_key(p) <==> (old.contains_key(p) || done.contains(p))
    &&& forall|p: (usize, usize), x: Seq<u8>| done.contains(p) && x.len() == 2 ==> (#[trigger] covered(array_front(new[p]), x) <==> (covered(pair_front_at(old, p), x)
            || covered(array_front(src[p]), x)))
    &&& forall|p: (usize, usize)| !done.contains(p) && #[trigger] old.contains_key(p) ==> new[p] == old[p]
}

/// `new` merges the fronts of `src` under the keys of `done` into those of `old`.
pub open spec fn triples_merged(
    old: Map<(usize, usize, usize), Seq<[u8; 3]>>,
    src: Map<(usize, usize, usize), Seq<[u8; 3]>>,
    new: Map<(usize, usize, usize), Seq<[u8; 3]>>,
    done: Set<(usize, usize, usize)>,
) -> bool {
    &&& forall|t: (usize, usize, usize)| #[trigger] new.contains_key(t) <==> (old.contains_key(t) || done.contains(t))
    &&& forall|t: (usize, usize, usize), x: Seq<u8>| done.contains(t) && x.len() == 3 ==> (#[trigger] covered(array_front(new[t]), x) <==> (covered(triple_front_at(old, t), x)
            || covered(array_front(src[t]), x)))
    &&& forall|t: (usize, usize, usize)| !done.contains(t) && #[trigger] old.contains_key(t) ==> new[t] == old[t]
}

/// Merging pair fronts joins what the maps stand for.
pub proof fn law_pairs_merge(
    old: Map<(usize, usize), Seq<[u8; 2]>>,
    src: Map<(usize, usize), Seq<[u8; 2]>>,
    new: Map<(usize, usize), Seq<[u8; 2]>>,
    r1: Seq<(Seq<usize>, Seq<u8>)>,
    r2: Seq<(Seq<usize>, Seq<u8>)>,
)
    requires
        pair_models(old, r1),
        pair_models(src, r2),
        pairs_merged(old, src, new, src.dom()),
        pair_fronts_wf(new),
    ensures
        pair_models(new, r1 + r2),
{
    let rs = r1 + r2;
    assert forall|p: (usize, usize)| #[trigger] new.contains_key(p) <==> exists|r: int| 0 <= r < rs.len() && pair_of(rs[r].0, p) by {
        if old.contains_key(p) {
            let r = choose|r: int| 0 <= r < r1.len() && pair_of(r1[r].0, p);
            assert(rs[r] == r1[r]);
        }
        if src.contains_key(p) {
            let r = choose|r: int| 0 <= r < r2.len() && pair_of(r2[r].0, p);
            assert(rs[r1.len() + r] == r2[r]);
        }
        if exists|r: int| 0 <= r < rs.len() && pair_of(rs[r].0, p) {
            let r = choose|r: int| 0 <= r < rs.len() && pair_of(rs[r].0, p);
            if r < r1.len() {
                assert(rs[r] == r1[r]);
            } else {
                assert(rs[r] == r2[r - r1.len()]);
            }
        }
    }
    assert forall|p: (usize, usize), x: Seq<u8>| new.contains_key(p) && x.len() == 2 implies (#[trigger] covered(array_front(new[p]), x) <==> exists|r: int|
        0 <= r < rs.len() && pair_of(rs[r].0, p) && dominates(pair_vec(rs[r].1, p), x)) by {
        let e1 = exists|r: int| 0 <= r < r1.len() && pair_of(r1[r].0, p) && dominates(pair_vec(r1[r].1, p), x);
        let e2 = exists|r: int| 0 <= r < r2.len() && pair_of(r2[r].0, p) && dominates(pair_vec(r2[r].1, p), x);
        assert(covered(pair_front_at(old, p), x) == e1) by {
            if !old.contains_key(p) {
                if e1 {
                    let r = choose|r: int| 0 <= r < r1.len() && pair_of(r1[r].0, p) && dominates(pair_vec(r1[r].1, p), x);
                }
            }
        }
        if src.contains_key(p) {
            assert(covered(array_front(src[p]), x) == e2);
            assert(covered(array_front(new[p]), x) == (e1 || e2));
        } else {
            assert(new[p] == old[p]);
            assert(!e2) by {
                if e2 {
                    let r = choose|r: int| 0 <= r < r2.len() && pair_of(r2[r].0, p) && dominates(pair_vec(r2[r].1, p), x);
                }
            }
        }
        if e1 {
            let r = choose|r: int| 0 <= r < r1.len() && pair_of(r1[r].0, p) && dominates(pair_vec(r1[r].1, p), x);
            assert(rs[r] == r1[r]);
        }
        if e2 {
            let r = choose|r: int| 0 <= r < r2.len() && pair_of(r2[r].0, p) && dominates(pair_vec(r2[r].1, p), x);
            assert(rs[r1.len() + r] == r2[r]);
        }
        if exists|r: int| 0 <= r < rs.len() && pair_of(rs[r].0, p) && dominates(pair_vec(rs[r].1, p), x) {
            let r = choose|r: int| 0 <= r < rs.len() && pair_of(rs[r].0, p) && dominates(pair_vec(rs[r].1, p), x);
            if r < r1.len() {
                assert(rs[r] == r1[r]);
            } else {
                assert(rs[r] == r2[r - r1.len()]);
            }
        }
    }
}

/// Merging triple fronts joins what the maps stand for.
pub proof fn law_triples_merge(
    old: Map<(usize, usize, usize), Seq<[u8; 3]>>,
    src: Map<(usize, usize, usize), Seq<[u8; 3]>>,
    new: Map<(usize, usize, usize), Seq<[u8; 3]>>,
    r1: Seq<(Seq<usize>, Seq<u8>)>,
    r2: Seq<(Seq<usize>, Seq<u8>)>,
)
    requires
        triple_models(old, r1),
        triple_models(src, r2),
        triples_merged(old, src, new, src.dom()),
        triple_fronts_wf(new),
    ensures
        triple_models(new, r1 + r2),
{
    let rs = r1 + r2;
    assert forall|t: (usize, usize, usize)| #[trigger] new.contains_key(t) <==> exists|r: int| 0 <= r < rs.len() && triple_of(rs[r].0, t) by {
        if old.contains_key(t) {
            let r = choose|r: int| 0 <= r < r1.len() && triple_of(r1[r].0, t);
            assert(rs[r] == r1[r]);
        }
        if src.contains_key(t) {
            let r = choose|r: int| 0 <= r < r2.len() && triple_of(r2[r].0, t);
            assert(rs[r1.len() + r] == r2[r]);
        }
        if exists|r: int| 0 <= r < rs.len() && triple_of(rs[r].0, t) {
            let r = choose|r: int| 0 <= r < rs.len() && triple_of(rs[r].0, t);
            if r < r1.len() {
                assert(rs[r] == r1[r]);
            } else {
                assert(rs[r] == r2[r - r1.len()]);
            }
        }
    }
    assert forall|t: (usize, usize, usize), x: Seq<u8>| new.contains_key(t) && x.len() == 3 implies (#[trigger] covered(array_front(new[t]), x) <==> exists|r: int|
        0 <= r < rs.len() && triple_of(rs[r].0, t) && dominates(triple_vec(rs[r].1, t), x)) by {
        let e1 = exists|r: int| 0 <= r < r1.len() && triple_of(r1[r].0, t) && dominates(triple_vec(r1[r].1, t), x);
        let e2 = exists|r: int| 0 <= r < r2.len() && triple_of(r2[r].0, t) && dominates(triple_vec(r2[r].1, t), x);
        assert(covered(triple_front_at(old, t), x) == e1) by {
            if !old.contains_key(t) {
                if e1 {
                    let r = choose|r: int| 0 <= r < r1.len() && triple_of(r1[r].0, t) && dominates(triple_vec(r1[r].1, t), x);
                }
            }
        }
        if src.contains_key(t) {
            assert(covered(array_front(src[t]), x) == e2);
            assert(covered(array_front(new[t]), x) == (e1 || e2));
        } else {
            assert(new[t] == old[t]);
            assert(!e2) by {
                if e2 {
                    let r = choose|r: int| 0 <= r < r2.len() && triple_of(r2[r].0, t) && dominates(triple_vec(r2[r].1, t), x);
                }
            }
        }
        if e1 {
            let r = choose|r: int| 0 <= r < r1.len() && triple_of(r1[r].0, t) && dominates(triple_vec(r1[r].1, t), x);
            assert(rs[r] == r1[r]);
        }
        if e2 {
            let r = choose|r: int| 0 <= r < r2.len() && triple_of(r2[r].0, t) && dominates(triple_vec(r2[r].1, t), x);
            assert(rs[r1.len() + r] == r2[r]);
        }
        if exists|r: int| 0 <= r < rs.len() && triple_of(rs[r].0, t) && dominates(triple_vec(rs[r].1, t), x) {
            let r = choose|r: int| 0 <= r < rs.len() && triple_of(rs[r].0, t) && dominates(triple_vec(rs[r].1, t), x);
            if r < r1.len() {
                assert(rs[r] == r1[r]);
            } else {
                assert(rs[r] == r2[r - r1.len()]);
            }
        }
    }
}

/// Merge the pair fronts of `src` into `dst`: `dst` keeps its other fronts,
/// and each front of `src` is merged into `dst`'s front under the same pair.
pub fn merge_pair_fronts(dst: &mut PairFronts, src: &PairFronts)
    requires
        pair_fronts_wf(pair_fronts(*old(dst))),
    ensures
        pair_fronts_wf(pair_fronts(*final(dst))),
        pairs_merged(pair_fronts(*old(dst)), pair_fronts(*src), pair_fronts(*final(dst)), pair_fronts(*src).dom()),
{
    let ghost m0 = pair_fronts(*dst);
    let ghost sm = pair_fronts(*src);
    let ks = src.keys();
    let mut i: usize = 0;
    while i < ks.len()
        invariant
            i <= ks@.len(),
            m0 == pair_fronts(*old(dst)),
            sm == pair_fronts(*src),
            ks@.to_set() == sm.dom(),
            ks@.no_duplicates(),
            pair_fronts_wf(pair_fronts(*dst)),
            pairs_merged(m0, sm, pair_fronts(*dst), ks@.take(i as int).to_set()),
        decreases ks.len() - i,
    {
        let p = ks[i];
        let ghost mb = pair_fronts(*dst);
        let ghost done = ks@.take(i as int).to_set();
        let ghost done1 = ks@.take(i + 1).to_set();
        proof {
            assert(ks@.to_set().contains(p));
            assert(!done.contains(p)) by {
                if done.contains(p) {
                    let s0 = ks@.take(i as int);
                    let t = choose|t: int| 0 <= t < s0.len() && #[trigger] s0[t] == p;
                    assert(ks@[t] == ks@[i as int]);
                }
            }
            assert(done1 == done.insert(p)) by {
                let s1 = ks@.take(i + 1);
                let s0 = ks@.take(i as int);
                assert(s1 =~= s0.push(p));
                assert forall|q: (usize, usize)| done1.contains(q) <==> done.insert(p).contains(q) by {
                    if done1.contains(q) {
                        let t = choose|t: int| 0 <= t < s1.len() && #[trigger] s1[t] == q;
                        if t < i {
                            assert(s0[t] == q);
                        }
                    }
                    if done.contains(q) {
                        let t = choose|t: int| 0 <= t < s0.len() && #[trigger] s0[t] == q;
                        assert(s1[t] == q);
                    }
                    if q == p {
                        assert(s1[i as int] == q);
                    }
                }
                assert(done1 =~= done.insert(p));
            }
        }
        let mut f: Vec<[u8; 2]> = match dst.remove(p) {
            Some(v) => v,
            None => Vec::new(),
        };
        proof {
            assert(array_front(f@) == pair_front_at(m0, p)) by {
                if !mb.contains_key(p) {
                    assert(array_front(f@) =~= Seq::<Seq<u8>>::empty());
                } else {
                    assert(mb[p] == m0[p]);
                }
            }
        }
        match src.get(p) {
            Some(sv) => {
                insert_all_u8(&mut f, sv);
            },
            None => {},
        }
        dst.insert(p, f);
        proof {
            let m1 = pair_fronts(*dst);
            assert(pairs_merged(m0, sm, m1, done1)) by {
                assert forall|q: (usize, usize)| #[trigger] m1.contains_key(q) <==> (m0.contains_key(q) || done1.contains(q)) by {
                    if q != p {
                        assert(m1.contains_key(q) == mb.contains_key(q));
                    }
                }
                assert forall|q: (usize, usize), x: Seq<u8>| done1.contains(q) && x.len() == 2 implies (#[trigger] covered(array_front(m1[q]), x) <==> (covered(pair_front_at(m0, q), x)
                        || covered(array_front(sm[q]), x))) by {
                    if q != p {
                        assert(done.contains(q));
                        assert(m1[q] == mb[q]);
                    }
                }
                assert forall|q: (usize, usize)| !done1.contains(q) && #[trigger] m0.contains_key(q) implies m1[q] == m0[q] by {
                    assert(q != p);
                    assert(m1[q] == mb[q]);
                }
            }
            assert forall|q: (usize, usize)| #[trigger] m1.contains_key(q) implies antichain(array_front(m1[q])) by {
                if q != p {
                    assert(m1[q] == mb[q]);
                }
            }
        }
        i += 1;
    }
    proof {
        assert(ks@.take(ks@.len() as int) =~= ks@);
    }
}

/// Merge the triple fronts of `src` into `dst`: `dst` keeps its other fronts,
/// and each front of `src` is merged into `dst`'s front under the same triple.
pub fn merge_triple_fronts(dst: &mut TripleFronts, src: &TripleFronts)
    requires
        triple_fronts_wf(triple_fronts(*old(dst))),
    ensures
        triple_fronts_wf(triple_fronts(*final(dst))),
        triples_merged(triple_fronts(*old(dst)), triple_fronts(*src), triple_fronts(*final(dst)), triple_fronts(*src).dom()),
{
    let ghost m0 = triple_fronts(*dst);
    let ghost sm = triple_fronts(*src);
    let ks = src.keys();
    let mut i: usize = 0;
    while i < ks.len()
        invariant
            i <= ks@.len(),
            m0 == triple_fronts(*old(dst)),
            sm == triple_fronts(*src),
            ks@.to_set() == sm.dom(),
            ks@.no_duplicates(),
            triple_fronts_wf(triple_fronts(*dst)),
            triples_merged(m0, sm, triple_fronts(*dst), ks@.take(i as int).to_set()),
        decreases ks.len() - i,
    {
        let p = ks[i];
        let ghost mb = triple_fronts(*dst);
        let ghost done = ks@.take(i as int).to_set();
        let ghost done1 = ks@.take(i + 1).to_set();
        proof {
            assert(ks@.to_set().contains(p));
            assert(!done.contains(p)) by {
                if done.contains(p) {
                    let s0 = ks@.take(i as int);
                    let t = choose|t: int| 0 <= t < s0.len() && #[trigger] s0[t] == p;
                    assert(ks@[t] == ks@[i as int]);
                }
            }
            assert(done1 == done.insert(p)) by {
                let s1 = ks@.take(i + 1);
                let s0 = ks@.take(i as int);
                assert(s1 =~= s0.push(p));
                assert forall|q: (usize, usize, usize)| done1.contains(q) <==> done.insert(p).contains(q) by {
                    if done1.contains(q) {
                        let t = choose|t: int| 0 <= t < s1.len() && #[trigger] s1[t] == q;
                        if t < i {
                            assert(s0[t] == q);
                        }
                    }
                    if done.contains(q) {
                        let t = choose|t: int| 0 <= t < s0.len() && #[trigger] s0[t] == q;
                        assert(s1[t] == q);
                    }
                    if q == p {
                        assert(s1[i as int] == q);
                    }
                }
                assert(done1 =~= done.insert(p));
            }
        }
        let mut f: Vec<[u8; 3]> = match dst.remove(p) {
            Some(v) => v,
            None => Vec::new(),
        };
        proof {
            assert(array_front(f@) == triple_front_at(m0, p)) by {
                if !mb.contains_key(p) {
                    assert(array_front(f@) =~= Seq::<Seq<u8>>::empty());
                } else {
                    assert(mb[p] == m0[p]);
                }
            }
        }
        match src.get(p) {
            Some(sv) => {
                insert_all_u8(&mut f, sv);
            },
            None => {},
        }
        dst.insert(p, f);
        proof {
            let m1 = triple_fronts(*dst);
            assert(triples_merged(m0, sm, m1, done1)) by {
                assert forall|q: (usize, usize, usize)| #[trigger] m1.contains_key(q) <==> (m0.contains_key(q) || done1.contains(q)) by {
                    if q != p {
                        assert(m1.contains_key(q) == mb.contains_key(q));
                    }
                }
                assert forall|q: (usize, usize, usize), x: Seq<u8>| done1.contains(q) && x.len() == 3 implies (#[trigger] covered(array_front(m1[q]), x) <==> (covered(triple_front_at(m0, q), x)
                        || covered(array_front(sm[q]), x))) by {
                    if q != p {
                        assert(done.contains(q));
                        assert(m1[q] == mb[q]);
                    }
                }
                assert forall|q: (usize, usize, usize)| !done1.contains(q) && #[trigger] m0.contains_key(q) implies m1[q] == m0[q] by {
                    assert(q != p);
                    assert(m1[q] == mb[q]);
                }
            }
            assert forall|q: (usize, usize, usize)| #[trigger] m1.contains_key(q) implies antichain(array_front(m1[q])) by {
                if q != p {
                    assert(m1[q] == mb[q]);
                }
            }
        }
        i += 1;
    }
    proof {
        assert(ks@.take(ks@.len() as int) =~= ks@);
    }
}

/// The keys of `src` that `old` lacks and whose front in `src` is not empty.
pub open spec fn new_keys(old: Map<Seq<usize>, Seq<Seq<u8>>>, src: Map<Seq<usize>, Seq<Seq<u8>>>) -> Set<Seq<usize>> {
    src.dom().filter(|key: Seq<usize>| !old.contains_key(key) && src[key].len() > 0)
}

/// `new` merges the fronts of `src` under the keys of `done` into those of `old`.
pub open spec fn keys_merged(
    old: Map<Seq<usize>, Seq<Seq<u8>>>,
    src: Map<Seq<usize>, Seq<Seq<u8>>>,
    new: Map<Seq<usize>, Seq<Seq<u8>>>,
    done: Set<Seq<usize>>,
) -> bool {
    &&& forall|key: Seq<usize>| #[trigger] new.contains_key(key) <==> (old.contains_key(key) || done.contains(key))
    &&& forall|key: Seq<usize>, x: Seq<u8>| done.contains(key) && x.len() == key.len() ==> (#[trigger] covered(new[key], x) <==> (covered(key_front_at(old, key), x)
            || covered(src[key], x)))
    &&& forall|key: Seq<usize>| !done.contains(key) && #[trigger] old.contains_key(key) ==> new[key] == old[key]
}

/// Merging keyed fronts joins what the maps stand for.
pub proof fn law_keys_merge(
    old: Map<Seq<usize>, Seq<Seq<u8>>>,
    src: Map<Seq<usize>, Seq<Seq<u8>>>,
    new: Map<Seq<usize>, Seq<Seq<u8>>>,
    r1: Seq<(spec_fn(Seq<usize>) -> bool, Seq<u8>)>,
    r2: Seq<(spec_fn(Seq<usize>) -> bool, Seq<u8>)>,
)
    requires
        keyed_models(old, r1),
        keyed_models(src, r2),
        keys_merged(old, src, new, src.dom()),
        key_fronts_wf(new),
    ensures
        keyed_models(new, r1 + r2),
{
    let rs = r1 + r2;
    assert forall|key: Seq<usize>| #[trigger] new.contains_key(key) <==> exists|r: int| 0 <= r < rs.len() && (rs[r].0)(key) by {
        if old.contains_key(key) {
            let r = choose|r: int| 0 <= r < r1.len() && (r1[r].0)(key);
            assert(rs[r] == r1[r]);
        }
        if src.contains_key(key) {
            let r = choose|r: int| 0 <= r < r2.len() && (r2[r].0)(key);
            assert(rs[r1.len() + r] == r2[r]);
        }
        if exists|r: int| 0 <= r < rs.len() && (rs[r].0)(key) {
            let r = choose|r: int| 0 <= r < rs.len() && (rs[r].0)(key);
            if r < r1.len() {
                assert(rs[r] == r1[r]);
            } else {
                assert(rs[r] == r2[r - r1.len()]);
            }
        }
    }
    assert forall|key: Seq<usize>, x: Seq<u8>| new.contains_key(key) && x.len() == key.len() implies (#[trigger] covered(new[key], x) <==> exists|r: int|
        0 <= r < rs.len() && (rs[r].0)(key) && dominates(key_vals(rs[r].1, key), x)) by {
        let e1 = exists|r: int| 0 <= r < r1.len() && (r1[r].0)(key) && dominates(key_vals(r1[r].1, key), x);
        let e2 = exists|r: int| 0 <= r < r2.len() && (r2[r].0)(key) && dominates(key_vals(r2[r].1, key), x);
        assert(covered(key_front_at(old, key), x) == e1) by {
            if !old.contains_key(key) {
                if e1 {
                    let r = choose|r: int| 0 <= r < r1.len() && (r1[r].0)(key) && dominates(key_vals(r1[r].1, key), x);
                }
            }
        }
        if src.contains_key(key) {
            assert(covered(src[key], x) == e2);
            assert(covered(new[key], x) == (e1 || e2));
        } else {
            assert(new[key] == old[key]);
            assert(!e2) by {
                if e2 {
                    let r = choose|r: int| 0 <= r < r2.len() && (r2[r].0)(key) && dominates(key_vals(r2[r].1, key), x);
                }
            }
        }
        if e1 {
            let r = choose|r: int| 0 <= r < r1.len() && (r1[r].0)(key) && dominates(key_vals(r1[r].1, key), x);
            assert(rs[r] == r1[r]);
        }
        if e2 {
            let r = choose|r: int| 0 <= r < r2.len() && (r2[r].0)(key) && dominates(key_vals(r2[r].1, key), x);
            assert(rs[r1.len() + r] == r2[r]);
        }
        if exists|r: int| 0 <= r < rs.len() && (rs[r].0)(key) && dominates(key_vals(rs[r].1, key), x) {
            let r = choose|r: int| 0 <= r < rs.len() && (rs[r].0)(key) && dominates(key_vals(rs[r].1, key), x);
            if r < r1.len() {
                assert(rs[r] == r1[r]);
            } else {
                assert(rs[r] == r2[r - r1.len()]);
            }
        }
    }
}

/// Merge the keyed fronts of `src` into `dst`; returns how many keys of
/// `src` were absent from `dst` and came with a non-empty front.
pub fn merge_key_fronts(dst: &mut KeyFronts, src: &KeyFronts) -> (added: usize)
    requires
        key_fronts_wf(key_fronts(*old(dst))),
        key_fronts_wf(key_fronts(*src)),
    ensures
        key_fronts_wf(key_fronts(*final(dst))),
        keys_merged(key_fronts(*old(dst)), key_fronts(*src), key_fronts(*final(dst)), key_fronts(*src).dom()),
        added == new_keys(key_fronts(*old(dst)), key_fronts(*src)).len(),
        added <= key_fronts(*src).dom().len(),
{
    let ghost m0 = key_fronts(*dst);
    let ghost sm = key_fronts(*src);
    let ghost pred = |key: Seq<usize>| !m0.contains_key(key) && sm[key].len() > 0;
    let ks = src.keys();
    let ghost kv = Seq::new(ks@.len(), |t: int| ks@[t]@);
    proof {
        assert forall|key: Seq<usize>| kv.to_set().contains(key) <==> sm.dom().contains(key) by {
            if kv.to_set().contains(key) {
                let t = choose|t: int| 0 <= t < kv.len() && kv[t] == key;
                assert(sm.contains_key(ks@[t]@));
            }
            if sm.dom().contains(key) {
                let t = choose|t: int| 0 <= t < ks@.len() && #[trigger] ks@[t]@ == key;
                assert(kv[t] == key);
            }
        }
        assert(kv.to_set() =~= sm.dom());
        assert(kv.take(0).to_set() =~= Set::<Seq<usize>>::empty());
        assert(kv.take(0).to_set().filter(pred) =~= Set::<Seq<usize>>::empty());
    }
    let mut added: usize = 0;
    let mut i: usize = 0;
    while i < ks.len()
        invariant
            i <= ks@.len(),
            m0 == key_fronts(*old(dst)),
            sm == key_fronts(*src),
            kv == Seq::new(ks@.len(), |t: int| ks@[t]@),
            kv.to_set() == sm.dom(),
            forall|a: int, b: int| 0 <= a < ks@.len() && 0 <= b < ks@.len() && a != b ==> ks@[a]@ != ks@[b]@,
            pred == (|key: Seq<usize>| !m0.contains_key(key) && sm[key].len() > 0),
            key_fronts_wf(sm),
            key_fronts_wf(key_fronts(*dst)),
            keys_merged(m0, sm, key_fronts(*dst), kv.take(i as int).to_set()),
            kv.take(i as int).to_set().finite(),
            added == kv.take(i as int).to_set().filter(pred).len(),
            added <= i,
        decreases ks.len() - i,
    {
        let key = &ks[i];
        let ghost kk = key@;
        let ghost mb = key_fronts(*dst);
        let ghost done = kv.take(i as int).to_set();
        let ghost done1 = kv.take(i + 1).to_set();
        proof {
            assert(kv[i as int] == kk);
            assert(!done.contains(kk)) by {
                if done.contains(kk) {
                    let s0 = kv.take(i as int);
                    let t = choose|t: int| 0 <= t < s0.len() && #[trigger] s0[t] == kk;
                    assert(ks@[t]@ == ks@[i as int]@);
                }
            }
            assert(done1 == done.insert(kk)) by {
                let s1 = kv.take(i + 1);
                let s0 = kv.take(i as int);
                assert(s1 =~= s0.push(kk));
                assert forall|q: Seq<usize>| done1.contains(q) <==> done.insert(kk).contains(q) by {
                    if done1.contains(q) {
                        let t = choose|t: int| 0 <= t < s1.len() && #[trigger] s1[t] == q;
                        if t < i {
                            assert(s0[t] == q);
                        }
                    }
                    if done.contains(q) {
                        let t = choose|t: int| 0 <= t < s0.len() && #[trigger] s0[t] == q;
                        assert(s1[t] == q);
                    }
                    if q == kk {
                        assert(s1[i as int] == q);
                    }
                }
                assert(done1 =~= done.insert(kk));
            }
            assert(sm.contains_key(kk)) by {
                assert(kv.to_set().contains(kk));
            }
        }
        let was_absent = !dst.contains_key(key);
        let mut f: Vec<Vec<u8>> = match dst.remove(key) {
            Some(v) => v,
            None => Vec::new(),
        };
        proof {
            assert(vec_front(f@) == key_front_at(m0, kk)) by {
                if !mb.contains_key(kk) {
                    assert(vec_front(f@) =~= Seq::<Seq<u8>>::empty());
                } else {
                    assert(mb[kk] == m0[kk]);
                }
            }
            assert(was_absent == !m0.contains_key(kk));
        }
        match src.get(key) {
            Some(sv) => {
                insert_all_vec(&mut f, sv, Ghost(kk.len()));
            },
            None => {},
        }
        let nonempty = f.len() > 0;
        proof {
            if was_absent {
                let ff = vec_front(f@);
                if sm[kk].len() > 0 {
                    let x = sm[kk][0];
                    assert(dominates(x, x));
                    assert(covered(sm[kk], x));
                    assert(covered(ff, x));
                } else {
                    if ff.len() > 0 {
                        let x = ff[0];
                        assert(dominates(x, x));
                        assert(covered(ff, x));
                        assert(!covered(sm[kk], x));
                        assert(!covered(key_front_at(m0, kk), x));
                    }
                }
                assert(nonempty == (sm[kk].len() > 0));
            }
            assert(pred(kk) == (was_absent && nonempty));
            let fd = done.filter(pred);
            let fd1 = done1.filter(pred);
            done.lemma_len_filter(pred);
            if was_absent && nonempty {
                assert(fd1 =~= fd.insert(kk));
                assert(!fd.contains(kk));
            } else {
                assert(fd1 =~= fd);
            }
        }
        dst.insert(key.clone(), f);
        if was_absent && nonempty {
            added += 1;
        }
        proof {
            let m1 = key_fronts(*dst);
            assert(keys_merged(m0, sm, m1, done1)) by {
                assert forall|q: Seq<usize>| #[trigger] m1.contains_key(q) <==> (m0.contains_key(q) || done1.contains(q)) by {
                    if q != kk {
                        assert(m1.contains_key(q) == mb.contains_key(q));
                    }
                }
                assert forall|q: Seq<usize>, x: Seq<u8>| done1.contains(q) && x.len() == q.len() implies (#[trigger] covered(m1[q], x) <==> (covered(key_front_at(m0, q), x)
                        || covered(sm[q], x))) by {
                    if q != kk {
                        assert(done.contains(q));
                        assert(m1[q] == mb[q]);
                    }
                }
                assert forall|q: Seq<usize>| !done1.contains(q) && #[trigger] m0.contains_key(q) implies m1[q] == m0[q] by {
                    assert(q != kk);
                    assert(m1[q] == mb[q]);
                }
            }
            assert forall|q: Seq<usize>| #[trigger] m1.contains_key(q) implies uniform(m1[q], q.len()) && antichain(m1[q]) by {
                if q != kk {
                    assert(m1[q] == mb[q]);
                } else {
                    if !mb.contains_key(kk) {
                        assert(key_front_at(m0, kk) =~= Seq::<Seq<u8>>::empty());
                    }
                }
            }
        }
        i += 1;
    }
    proof {
        assert(kv.take(ks@.len() as int) =~= kv);
        assert(new_keys(m0, sm) =~= sm.dom().filter(pred));
        assert(kv.no_duplicates()) by {
            assert forall|a: int, b: int| 0 <= a < kv.len() && 0 <= b < kv.len() && a != b implies kv[a] != kv[b] by {
                assert(ks@[a]@ != ks@[b]@);
            }
        }
        kv.unique_seq_to_set();
    }
    added
}

/// Merge forced constraints into the statistics after they are built:
/// every forced front is merged into the statistics' front under the same
/// key, and the count of keys of four or more letters that only forced
/// constraints supplied grows by the number of such new keys.
pub fn merge_forced_hall_after_cap(stats: &mut Stats, forced: &ForcedHall)
    requires
        pair_fronts_wf(pair_fronts(old(stats).r2v)),
        triple_fronts_wf(triple_fronts(old(stats).r3v)),
        key_fronts_wf(key_fronts(old(stats).rhv)),
        key_fronts_wf(key_fronts(forced.rhv)),
        old(stats).rhv_forced_count + key_fronts(forced.rhv).dom().len() <= usize::MAX,
    ensures
        final(stats).r1 == old(stats).r1,
        final(stats).f == old(stats).f,
        pair_fronts_wf(pair_fronts(final(stats).r2v)),
        triple_fronts_wf(triple_fronts(final(stats).r3v)),
        key_fronts_wf(key_fronts(final(stats).rhv)),
        pairs_merged(pair_fronts(old(stats).r2v), pair_fronts(forced.r2v), pair_fronts(final(stats).r2v), pair_fronts(forced.r2v).dom()),
        triples_merged(triple_fronts(old(stats).r3v), triple_fronts(forced.r3v), triple_fronts(final(stats).r3v), triple_fronts(forced.r3v).dom()),
        keys_merged(key_fronts(old(stats).rhv), key_fronts(forced.rhv), key_fronts(final(stats).rhv), key_fronts(forced.rhv).dom()),
        final(stats).rhv_forced_count == old(stats).rhv_forced_count + new_keys(key_fronts(old(stats).rhv), key_fronts(forced.rhv)).len(),
{
    merge_pair_fronts(&mut stats.r2v, &forced.r2v);
    merge_triple_fronts(&mut stats.r3v, &forced.r3v);
    let added = merge_key_fronts(&mut stats.rhv, &forced.rhv);
    stats.rhv_forced_count = stats.rhv_forced_count + added;
}

/// Merge statistics computed on another part of a word list into `acc`:
/// per-letter maxima and totals combine, and every front is merged.
pub fn merge_stats(acc: &mut Stats, part: &Stats)
    requires
        old(acc).r1@.len() == part.r1@.len(),
        old(acc).f@.len() == part.f@.len(),
        forall|l: int| 0 <= l < part.f@.len() ==> i64::MIN <= #[trigger] old(acc).f@[l] + part.f@[l] <= i64::MAX,
        pair_fronts_wf(pair_fronts(old(acc).r2v)),
        triple_fronts_wf(triple_fronts(old(acc).r3v)),
        key_fronts_wf(key_fronts(old(acc).rhv)),
        key_fronts_wf(key_fronts(part.rhv)),
    ensures
        final(acc).r1@.len() == part.r1@.len(),
        final(acc).f@.len() == part.f@.len(),
        forall|l: int| 0 <= l < part.r1@.len() ==> #[trigger] final(acc).r1@[l] == max_int(old(acc).r1@[l] as int, part.r1@[l] as int),
        forall|l: int| 0 <= l < part.f@.len() ==> #[trigger] final(acc).f@[l] == old(acc).f@[l] + part.f@[l],
        final(acc).rhv_forced_count == old(acc).rhv_forced_count,
        pair_fronts_wf(pair_fronts(final(acc).r2v)),
        triple_fronts_wf(triple_fronts(final(acc).r3v)),
        key_fronts_wf(key_fronts(final(acc).rhv)),
        pairs_merged(pair_fronts(old(acc).r2v), pair_fronts(part.r2v), pair_fronts(final(acc).r2v), pair_fronts(part.r2v).dom()),
        triples_merged(triple_fronts(old(acc).r3v), triple_fronts(part.r3v), triple_fronts(final(acc).r3v), triple_fronts(part.r3v).dom()),
        keys_merged(key_fronts(old(acc).rhv), key_fronts(part.rhv), key_fronts(final(acc).rhv), key_fronts(part.rhv).dom()),
{
    let mut l: usize = 0;
    while l < part.r1.len()
        invariant
            l <= part.r1@.len(),
            acc.r1@.len() == part.r1@.len(),
            acc.f == old(acc).f,
            acc.r2v == old(acc).r2v,
            acc.r3v == old(acc).r3v,
            acc.rhv == old(acc).rhv,
            acc.rhv_forced_count == old(acc).rhv_forced_count,
            forall|x: int| l <= x < part.r1@.len() ==> #[trigger] acc.r1@[x] == old(acc).r1@[x],
            forall|x: int| 0 <= x < l ==> #[trigger] acc.r1@[x] == max_int(old(acc).r1@[x] as int, part.r1@[x] as int),
        decreases part.r1.len() - l,
    {
        if part.r1[l] > acc.r1[l] {
            acc.r1.set(l, part.r1[l]);
        }
        l += 1;
    }
    let ghost r1s = acc.r1@;
    let mut l: usize = 0;
    while l < part.f.len()
        invariant
            l <= part.f@.len(),
            acc.f@.len() == part.f@.len(),
            acc.r1@ == r1s,
            acc.r2v == old(acc).r2v,
            acc.r3v == old(acc).r3v,
            acc.rhv == old(acc).rhv,
            acc.rhv_forced_count == old(acc).rhv_forced_count,
            forall|x: int| 0 <= x < part.f@.len() ==> i64::MIN <= #[trigger] old(acc).f@[x] + part.f@[x] <= i64::MAX,
            forall|x: int| l <= x < part.f@.len() ==> #[trigger] acc.f@[x] == old(acc).f@[x],
            forall|x: int| 0 <= x < l ==> #[trigger] acc.f@[x] == old(acc).f@[x] + part.f@[x],
        decreases part.f.len() - l,
    {
        let v = acc.f[l] + part.f[l];
        acc.f.set(l, v);
        l += 1;
    }
    merge_pair_fronts(&mut acc.r2v, &part.r2v);
    merge_triple_fronts(&mut acc.r3v, &part.r3v);
    let _ = merge_key_fronts(&mut acc.rhv, &part.rhv);
}

/// Add the seeded distinct-letter subsets of a word (sizes 4 up to
/// `KGE_MAXK`) to the forced constraints, each with all-ones multiplicities;
/// the letters considered for each size are the word's best by a weight
/// seeded with `kge_seed` and the word's own letter signature.
pub fn add_certificate_all_subsets_kge4(forced: &mut ForcedHall, alpha: &Alphabet, word: &str, kge_seed: u64)
    requires
        key_fronts_wf(key_fronts(old(forced).rhv)),
    ensures
        key_fronts_wf(key_fronts(final(forced).rhv)),
        final(forced).r2v == old(forced).r2v,
        final(forced).r3v == old(forced).r3v,
        keys_inserted(key_fronts(old(forced).rhv), key_fronts(final(forced).rhv), ones(alpha@.len()),
            kge_sel(alpha@, word@, kge_seed)),
{
    let ghost syms = alpha@;
    let ghost sel = kge_sel(syms, word@, kge_seed);
    let ghost m0 = key_fronts(forced.rhv);
    let n = crate::alphabet::n_letters(alpha);
    let counts = letter_counts(alpha, word);
    proof {
        assert(counts@ =~= word_counts(syms, word@));
        lemma_positive_positions(counts@);
    }
    let mut cnt_u8: Vec<u8> = Vec::new();
    let mut onesv: Vec<u8> = Vec::new();
    let mut i: usize = 0;
    while i < n
        invariant
            i <= n,
            n == counts@.len(),
            cnt_u8@.len() == i,
            onesv@.len() == i,
            forall|l: int| 0 <= l < i ==> #[trigger] cnt_u8@[l] == sat_counts(counts@)[l],
            forall|l: int| 0 <= l < i ==> #[trigger] onesv@[l] == 1u8,
        decreases n - i,
    {
        let c = counts[i];
        cnt_u8.push(if c < 255 { c as u8 } else { 255u8 });
        onesv.push(1u8);
        i += 1;
    }
    assert(cnt_u8@ =~= sat_counts(counts@));
    assert(onesv@ =~= ones(syms.len()));
    let pool = present_letters(&counts);
    if pool.len() < 4 {
        proof {
            assert forall|kk: Seq<usize>| !#[trigger] sel(kk) by {}
            lemma_keys_inserted_empty(m0, onesv@, sel);
        }
        return;
    }
    let word_sig = kge_word_signature_from_counts(&cnt_u8);
    let ord = rank_by_weight(&pool, kge_seed, word_sig);
    let ghost key = weight_rank_key(kge_seed, word_sig);
    proof {
        assert(ord@.no_duplicates()) by {
            assert forall|a: int, b: int| 0 <= a < ord@.len() && 0 <= b < ord@.len() && a != b implies ord@[a] != ord@[b] by {
                if a < b {
                    assert(lex3_lt(key(ord@[a]), key(ord@[b])));
                } else {
                    assert(lex3_lt(key(ord@[b]), key(ord@[a])));
                }
            }
        }
        assert forall|t: int| 0 <= t < ord@.len() implies (#[trigger] ord@[t] as int) < onesv@.len() by {
            assert(ord@.contains(ord@[t]));
            assert(pool@.contains(ord@[t]));
        }
    }
    let max_k: usize = if KGE_MAXK < pool.len() { KGE_MAXK } else { pool.len() };
    let mut k: usize = 4;
    proof {
        let s0 = |kk: Seq<usize>| sel(kk) && kk.len() < k;
        assert forall|kk: Seq<usize>| !#[trigger] s0(kk) by {}
        lemma_keys_inserted_empty(m0, onesv@, s0);
    }
    while k <= max_k
        invariant
            4 <= k <= max_k + 1,
            max_k == min_nat(KGE_MAXK as int, pool@.len() as int),
            pool@.len() >= 4,
            n == syms.len(),
            syms == alpha@,
            m0 == key_fronts(old(forced).rhv),
            forced.r2v == old(forced).r2v,
            forced.r3v == old(forced).r3v,
            pool@ == positive_positions(word_counts(syms, word@)),
            sel == kge_sel(syms, word@, kge_seed),
            key == weight_rank_key(kge_seed, word_sig),
            word_sig == kge_signature(sat_counts(word_counts(syms, word@)), word_counts(syms, word@).len() as int),
            onesv@ == ones(syms.len()),
            ranked(ord@, pool@, key),
            ord@.len() == pool@.len(),
            ord@.no_duplicates(),
            forall|t: int| 0 <= t < ord@.len() ==> (#[trigger] ord@[t] as int) < onesv@.len(),
            key_fronts_wf(key_fronts(forced.rhv)),
            keys_inserted(m0, key_fronts(forced.rhv), onesv@, |kk: Seq<usize>| sel(kk) && kk.len() < k),
        decreases max_k + 1 - k,
    {
        let kt = kge_topk_for(n, k);
        let w = if k > kt { k } else { kt };
        let topk = if pool.len() < w { pool.len() } else { w };
        let ghost mid = key_fronts(forced.rhv);
        let pk = sorted_prefix(&ord, topk);
        let mut cur: Vec<usize> = Vec::new();
        let mut z: usize = 0;
        while z < k
            invariant
                z <= k,
                cur@.len() == z,
            decreases k - z,
        {
            cur.push(0);
            z += 1;
        }
        let ghost pre = cur@.take(0);
        proof {
            assert forall|t2: int| 0 <= t2 < pk@.len() implies (#[trigger] pk@[t2] as int) < onesv@.len() by {
                assert(pk@.contains(pk@[t2]));
                assert(ord@.take(topk as int).contains(pk@[t2]));
                let u = choose|u: int| 0 <= u < topk && ord@.take(topk as int)[u] == pk@[t2];
                assert(ord@[u] == pk@[t2]);
            }
            assert(increasing(cur@.take(0))) by {
                assert(cur@.take(0).len() == 0);
            }
        }
        insert_subsets_rec(&pk, 0, 0, k, &mut cur, &onesv, &mut forced.rhv);
        proof {
            let m1 = key_fronts(forced.rhv);
            let a = |kk: Seq<usize>| sel(kk) && kk.len() < k;
            let b = |kk: Seq<usize>| rec_sel(pk@, 0, 0, k as int, pre, kk);
            let cc = |kk: Seq<usize>| sel(kk) && kk.len() < k + 1;
            assert forall|kk: Seq<usize>| #[trigger] b(kk) == (sel(kk) && kk.len() == k) by {
                lemma_rec_sel_top(pk@, k as int, pre, kk);
                if b(kk) {
                    assert forall|j: int| 0 <= j < kk.len() implies ord@.take(topk as int).contains(#[trigger] kk[j]) by {
                        assert(pk@.contains(kk[j]));
                    }
                    assert(ranked(ord@, pool@, key) && subset_key(ord@.take(topk as int), k as nat, kk));
                    assert(sel(kk));
                }
                if sel(kk) && kk.len() == k {
                    let o2 = choose|o2: Seq<usize>| ranked(o2, pool@, key) && subset_key(o2.take(topk as int), k as nat, kk);
                    lemma_sorted_unique(ord@, o2, key);
                    assert forall|j: int| 0 <= j < kk.len() implies pk@.contains(#[trigger] kk[j]) by {
                        assert(ord@.take(topk as int).contains(kk[j]));
                    }
                }
            }
            assert forall|kk: Seq<usize>| !(#[trigger] a(kk) && b(kk)) by {}
            assert forall|kk: Seq<usize>| #[trigger] cc(kk) == (a(kk) || b(kk)) by {}
            lemma_keys_inserted_compose(m0, mid, m1, onesv@, a, b, cc);
        }
        k += 1;
    }
    proof {
        let m1 = key_fronts(forced.rhv);
        let a = |kk: Seq<usize>| sel(kk) && kk.len() < k;
        assert forall|kk: Seq<usize>| #[trigger] a(kk) == sel(kk) by {}
        lemma_keys_inserted_congr(m0, m1, onesv@, a, sel);
    }
}

/// Needs of pairs lie between 0 and 510.
pub proof fn lemma_need2_bound(m: Map<(usize, usize), Seq<[u8; 2]>>, a: usize, b: usize, deg: Seq<i32>)
    ensures
        0 <= need2(m, a, b, deg) <= 510,
{
    let key = if a < b { (a, b) } else { (b, a) };
    if a != b && m.contains_key(key) {
        lemma_array_front_uniform(m[key]);
        lemma_best_fit_bound(array_front(m[key]), if a < b { seq![0int, 1] } else { seq![1int, 0] },
            seq![deg[a as int] as int, deg[b as int] as int], 2);
    }
}

/// Needs of triples lie between 0 and 765.
pub proof fn lemma_need3_bound(m: Map<(usize, usize, usize), Seq<[u8; 3]>>, a: usize, b: usize, c: usize, deg: Seq<i32>)
    ensures
        0 <= need3(m, a, b, c, deg) <= 765,
{
    let k = crate::types::ord3_spec(a, b, c);
    if m.contains_key(k) {
        lemma_array_front_uniform(m[k]);
        lemma_best_fit_bound(array_front(m[k]), seq![pos3(a, k.0, k.1), pos3(b, k.0, k.1), pos3(c, k.0, k.1)],
            seq![deg[a as int] as int, deg[b as int] as int, deg[c as int] as int], 3);
    }
}

/// Needs of keys lie between 0 and 255 per letter.
pub proof fn lemma_need_key_bound(front: Seq<Seq<u8>>, key: Seq<usize>, deg: Seq<i32>)
    requires
        uniform(front, key.len()),
    ensures
        0 <= need_key(front, key, deg) <= 255 * key.len(),
{
    lemma_best_fit_bound(front, Seq::new(key.len(), |j: int| j), Seq::new(key.len(), |j: int| deg[key[j] as int] as int), key.len());
}

} // verus!
