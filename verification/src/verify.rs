//! Spellability verification: the cube index built from letter masks and an
//! exact backtracking test of whether a word can be spelled.

use vstd::prelude::*;
use crate::alphabet::{Alphabet, letter_index, word_letters, all_in_alphabet, letters_of_word, lemma_word_letters_bounded, lemma_letter_index_props};
use crate::bits::{has_bit, lemma_bit_and, lemma_bit_or, lemma_bit_single};
use crate::hall::{cube_carries, cubes_of_letter, mask_spellable, is_cube_assignment};
use crate::types::{CubeIndex, N_CUBES};

verus! {

/// Masks keep only the bits of the `N_CUBES` cubes.
pub const CUBE_BITS: u64 = 0x3ff_ffff;

pub proof fn lemma_cube_bits(m: u64, j: int)
    ensures
        has_bit(m & CUBE_BITS, j) == (has_bit(m, j) && j < N_CUBES),
{
    if 0 <= j < 64 {
        let jj = j as u64;
        assert(((m & 0x3ff_ffffu64) >> jj) & 1u64 == 1u64 <==> ((m >> jj) & 1u64 == 1u64 && jj < 26)) by (bit_vector)
            requires
                jj < 64,
        ;
    }
}

/// Cube `c` appears in the list of letter `l`.
pub open spec fn in_list(lists: Seq<Vec<usize>>, l: usize, c: int) -> bool {
    exists|k: int| 0 <= k < lists[l as int]@.len() && lists[l as int]@[k] as int == c
}

/// `idx` is the cube index of `masks`: the masks restricted to the `N_CUBES`
/// cubes, and for each letter the ascending list of the cubes that carry it.
pub open spec fn index_of_masks(idx: CubeIndex, masks: Seq<u64>) -> bool {
    &&& idx.letter_masks@.len() == masks.len()
    &&& idx.cube_lists@.len() == masks.len()
    &&& forall|i: int| 0 <= i < masks.len() ==> #[trigger] idx.letter_masks@[i] == masks[i] & CUBE_BITS
    &&& forall|i: int, c: int| 0 <= i < masks.len() ==> (#[trigger] in_list(idx.cube_lists@, i as usize, c) <==> cube_carries(masks, i as usize, c))
    &&& forall|i: int, k: int|
        0 <= i < masks.len() && 0 <= k < idx.cube_lists@[i]@.len() ==> (#[trigger] idx.cube_lists@[i]@[k] as int) < N_CUBES
    &&& forall|i: int, k1: int, k2: int|
        0 <= i < masks.len() && 0 <= k1 < k2 < idx.cube_lists@[i]@.len() ==> #[trigger] idx.cube_lists@[i]@[k1] < #[trigger] idx.cube_lists@[i]@[k2]
}

/// Build a `CubeIndex` from raw letter masks; bits of cubes at or beyond
/// `N_CUBES` are ignored.
pub fn build_index_from_masks(masks: &[u64]) -> (out: CubeIndex)
    ensures
        index_of_masks(out, masks@),
{
    let n = masks.len();
    let mask_limit: u64 = CUBE_BITS;
    let mut letter_masks: Vec<u64> = Vec::new();
    let mut cube_lists: Vec<Vec<usize>> = Vec::new();
    let mut i: usize = 0;
    while i < n
        invariant
            i <= n,
            n == masks@.len(),
            mask_limit == CUBE_BITS,
            letter_masks@.len() == i,
            cube_lists@.len() == i,
            forall|x: int| 0 <= x < i ==> #[trigger] letter_masks@[x] == masks@[x] & CUBE_BITS,
            forall|x: int, c: int| 0 <= x < i ==> (#[trigger] in_list(cube_lists@, x as usize, c) <==> cube_carries(masks@, x as usize, c)),
            forall|x: int, k: int|
                0 <= x < i && 0 <= k < cube_lists@[x]@.len() ==> (#[trigger] cube_lists@[x]@[k] as int) < N_CUBES,
            forall|x: int, k1: int, k2: int|
                0 <= x < i && 0 <= k1 < k2 < cube_lists@[x]@.len() ==> #[trigger] cube_lists@[x]@[k1] < #[trigger] cube_lists@[x]@[k2],
        decreases n - i,
    {
        let raw = masks[i];
        let clamped = raw & mask_limit;
        letter_masks.push(clamped);
        let lst = cubes_of_letter(clamped);
        let ghost before = cube_lists@;
        cube_lists.push(lst);
        proof {
            assert forall|x: int, c: int| 0 <= x < i + 1 implies (#[trigger] in_list(cube_lists@, x as usize, c) <==> cube_carries(masks@, x as usize, c)) by {
                if x < i {
                    assert(cube_lists@[x] == before[x]);
                    assert(in_list(cube_lists@, x as usize, c) == in_list(before, x as usize, c));
                } else {
                    assert(x == i);
                    assert(cube_lists@[x] == lst);
                    assert(masks@[x] == raw);
                    lemma_cube_bits(raw, c);
                    if cube_carries(masks@, x as usize, c) {
                        assert(has_bit(clamped, c));
                        assert(lst@.contains(c as usize));
                        let k = choose|k: int| 0 <= k < lst@.len() && lst@[k] == c as usize;
                        assert(lst@[k] as int == c);
                    }
                    if in_list(cube_lists@, x as usize, c) {
                        let k = choose|k: int| 0 <= k < lst@.len() && lst@[k] as int == c;
                        assert(has_bit(clamped, lst@[k] as int));
                    }
                }
            }
        }
        i += 1;
    }
    CubeIndex { letter_masks, cube_lists }
}


/* ------------------------------------------------------------------ */
/* Exact spellability by backtracking                                 */
/* ------------------------------------------------------------------ */

/// `a` gives every letter instance its own cube taken from that letter's list.
pub open spec fn is_list_assignment(letters: Seq<usize>, lists: Seq<Vec<usize>>, a: Seq<int>) -> bool {
    &&& a.len() == letters.len()
    &&& forall|i: int| 0 <= i < a.len() ==> #[trigger] in_list(lists, letters[i], a[i])
    &&& forall|i: int, j: int| 0 <= i < a.len() && 0 <= j < a.len() && i != j ==> a[i] != a[j]
}

pub open spec fn list_spellable(letters: Seq<usize>, lists: Seq<Vec<usize>>) -> bool {
    exists|a: Seq<int>| is_list_assignment(letters, lists, a)
}

/// What `can_spell_word` decides: every scalar is a letter of the alphabet,
/// there are no more letters than cubes, and the letters can be placed on
/// distinct cubes from their cube lists.
pub open spec fn spells(syms: Seq<char>, word: Seq<char>, lists: Seq<Vec<usize>>) -> bool {
    &&& all_in_alphabet(syms, word)
    &&& word.len() <= N_CUBES
    &&& list_spellable(word_letters(syms, word), lists)
}

/// Candidate-count order used to try the most constrained letters first.
pub open spec fn key_le(lists: Seq<Vec<usize>>, a: usize, b: usize) -> bool {
    lists[a as int]@.len() < lists[b as int]@.len() || (lists[a as int]@.len() == lists[b as int]@.len() && a <= b)
}

/// `p`/`q` are mutually inverse permutations with `b[k] == a[p[k]]`.
pub open spec fn permuted(a: Seq<usize>, b: Seq<usize>, p: Seq<int>, q: Seq<int>) -> bool {
    &&& a.len() == b.len()
    &&& p.len() == a.len()
    &&& q.len() == a.len()
    &&& forall|k: int| 0 <= k < p.len() ==> 0 <= #[trigger] p[k] < p.len() && b[k] == a[p[k]] && q[p[k]] == k
    &&& forall|i: int| 0 <= i < q.len() ==> 0 <= #[trigger] q[i] < q.len() && p[q[i]] == i
}

pub proof fn lemma_permuted_spellable(a: Seq<usize>, b: Seq<usize>, p: Seq<int>, q: Seq<int>, lists: Seq<Vec<usize>>)
    requires
        permuted(a, b, p, q),
    ensures
        list_spellable(a, lists) == list_spellable(b, lists),
{
    if list_spellable(a, lists) {
        let x = choose|x: Seq<int>| is_list_assignment(a, lists, x);
        let y = Seq::new(b.len(), |k: int| x[p[k]]);
        assert forall|k: int| 0 <= k < y.len() implies #[trigger] in_list(lists, b[k], y[k]) by {
            assert(in_list(lists, a[p[k]], x[p[k]]));
        }
        assert(is_list_assignment(b, lists, y));
    }
    if list_spellable(b, lists) {
        let y = choose|y: Seq<int>| is_list_assignment(b, lists, y);
        let x = Seq::new(a.len(), |i: int| y[q[i]]);
        assert forall|i: int| 0 <= i < x.len() implies #[trigger] in_list(lists, a[i], x[i]) by {
            assert(in_list(lists, b[q[i]], y[q[i]]));
            assert(b[q[i]] == a[p[q[i]]]);
        }
        assert forall|i: int, j: int| 0 <= i < x.len() && 0 <= j < x.len() && i != j implies x[i] != x[j] by {
            if q[i] == q[j] {
                assert(p[q[i]] == i);
            }
        }
        assert(is_list_assignment(a, lists, x));
    }
}

/// `p`/`q` are mutually inverse permutations with `b[k] == a[p[k]]`:
/// `b` holds the scalars of `a` in another order.
pub open spec fn chars_permuted(a: Seq<char>, b: Seq<char>, p: Seq<int>, q: Seq<int>) -> bool {
    &&& a.len() == b.len()
    &&& p.len() == a.len()
    &&& q.len() == a.len()
    &&& forall|k: int| 0 <= k < p.len() ==> 0 <= #[trigger] p[k] < p.len() && b[k] == a[p[k]] && q[p[k]] == k
    &&& forall|i: int| 0 <= i < q.len() ==> 0 <= #[trigger] q[i] < q.len() && p[q[i]] == i
}

proof fn lemma_word_letters_at(syms: Seq<char>, w: Seq<char>)
    requires
        all_in_alphabet(syms, w),
    ensures
        word_letters(syms, w).len() == w.len(),
        forall|k: int| 0 <= k < w.len() ==> #[trigger] word_letters(syms, w)[k] == letter_index(syms, w[k]).unwrap() as usize,
    decreases w.len(),
{
    lemma_word_letters_all_known(syms, w);
    if w.len() > 0 {
        let d = w.drop_last();
        assert(all_in_alphabet(syms, d)) by {
            assert forall|i: int| 0 <= i < d.len() implies syms.contains(#[trigger] d[i]) by {
                assert(d[i] == w[i]);
            }
        }
        lemma_word_letters_at(syms, d);
        assert(syms.contains(w[w.len() - 1]));
        assert forall|k: int| 0 <= k < w.len() implies #[trigger] word_letters(syms, w)[k] == letter_index(syms, w[k]).unwrap() as usize by {
            if k < w.len() - 1 {
                assert(d[k] == w[k]);
            }
        }
    }
}

/// Whether a word can be spelled does not depend on the order of its
/// scalars.
pub proof fn law_spelling_ignores_order(
    syms: Seq<char>,
    w1: Seq<char>,
    w2: Seq<char>,
    p: Seq<int>,
    q: Seq<int>,
    lists: Seq<Vec<usize>>,
)
    requires
        chars_permuted(w1, w2, p, q),
    ensures
        spells(syms, w1, lists) == spells(syms, w2, lists),
{
    assert(all_in_alphabet(syms, w1) == all_in_alphabet(syms, w2)) by {
        if all_in_alphabet(syms, w1) {
            assert forall|k: int| 0 <= k < w2.len() implies syms.contains(#[trigger] w2[k]) by {
                assert(w2[k] == w1[p[k]]);
            }
        }
        if all_in_alphabet(syms, w2) {
            assert forall|i: int| 0 <= i < w1.len() implies syms.contains(#[trigger] w1[i]) by {
                assert(w1[i] == w2[q[i]]);
            }
        }
    }
    if all_in_alphabet(syms, w1) {
        lemma_word_letters_at(syms, w1);
        lemma_word_letters_at(syms, w2);
        let a = word_letters(syms, w1);
        let b = word_letters(syms, w2);
        assert forall|k: int| 0 <= k < p.len() implies 0 <= #[trigger] p[k] < p.len() && b[k] == a[p[k]] && q[p[k]] == k by {
            assert(w2[k] == w1[p[k]]);
        }
        assert(permuted(a, b, p, q));
        lemma_permuted_spellable(a, b, p, q, lists);
    }
}

fn key_gt(lists: &Vec<Vec<usize>>, x: usize, y: usize) -> (r: bool)
    requires
        (x as int) < lists@.len(),
        (y as int) < lists@.len(),
    ensures
        r == !key_le(lists@, x, y),
{
    let lx = lists[x].len();
    let ly = lists[y].len();
    lx > ly || (lx == ly && x > y)
}

/// Sort letter indices by (number of candidate cubes, letter index).
fn sort_by_candidates(v: &mut Vec<usize>, lists: &Vec<Vec<usize>>)
    requires
        forall|k: int| 0 <= k < old(v)@.len() ==> (#[trigger] old(v)@[k] as int) < lists@.len(),
    ensures
        forall|k: int| 0 <= k < final(v)@.len() ==> (#[trigger] final(v)@[k] as int) < lists@.len(),
        forall|i: int, j: int| 0 <= i < j < final(v)@.len() ==> key_le(lists@, final(v)@[i], final(v)@[j]),
        exists|p: Seq<int>, q: Seq<int>| permuted(old(v)@, final(v)@, p, q),
{
    let ghost orig = v@;
    let ghost mut p: Seq<int> = Seq::new(v@.len(), |k: int| k);
    let ghost mut q: Seq<int> = Seq::new(v@.len(), |k: int| k);
    let n = v.len();
    let mut i: usize = 1;
    if n == 0 {
        assert(permuted(orig, v@, p, q));
        return;
    }
    while i < n
        invariant
            1 <= i <= n,
            n == v@.len(),
            orig == old(v)@,
            forall|k: int| 0 <= k < v@.len() ==> (#[trigger] v@[k] as int) < lists@.len(),
            forall|a: int, b: int| 0 <= a < b < i ==> key_le(lists@, v@[a], v@[b]),
            permuted(orig, v@, p, q),
        decreases n - i,
    {
        let mut j: usize = i;
        while j > 0 && key_gt(lists, v[j - 1], v[j])
            invariant
                0 <= j <= i < n,
                n == v@.len(),
                orig == old(v)@,
                forall|k: int| 0 <= k < v@.len() ==> (#[trigger] v@[k] as int) < lists@.len(),
                forall|a: int, b: int| 0 <= a < b <= i && a != j && b != j ==> key_le(lists@, v@[a], v@[b]),
                forall|b: int| j < b <= i ==> key_le(lists@, v@[j as int], v@[b]) && v@[j as int] != v@[b],
                forall|a: int, b: int| 0 <= a < j && j < b <= i ==> key_le(lists@, v@[a], v@[b]),
                permuted(orig, v@, p, q),
            decreases j,
        {
            let t = v[j - 1];
            let w = v[j];
            v.set(j - 1, w);
            v.set(j, t);
            proof {
                let pa = p[j - 1];
                let pb = p[j as int];
                p = p.update(j - 1, pb).update(j as int, pa);
                q = q.update(pb, j - 1).update(pa, j as int);
            }
            j -= 1;
        }
        proof {
            assert(j == 0 || key_le(lists@, v@[j - 1], v@[j as int]));
            assert forall|a: int, b: int| 0 <= a < b <= i implies key_le(lists@, v@[a], v@[b]) by {
                if b == j && a < j - 1 {
                    assert(key_le(lists@, v@[a], v@[j - 1]));
                }
            }
        }
        i += 1;
    }
}


/// Within every run of equal adjacent letters the cubes strictly increase.
pub open spec fn run_ordered(letters: Seq<usize>, b: Seq<int>) -> bool {
    forall|i: int| 0 <= i < b.len() - 1 && letters[i] == letters[i + 1] ==> #[trigger] b[i] < b[i + 1]
}

/// All cube numbers in the lists are below 64 (they index bits of a `u64`).
pub open spec fn lists_in_range(lists: Seq<Vec<usize>>) -> bool {
    forall|l: int, k: int| 0 <= l < lists.len() && 0 <= k < lists[l]@.len() ==> (#[trigger] lists[l]@[k] as int) < 64
}

spec fn weight(a: Seq<int>) -> int
    decreases a.len(),
{
    if a.len() == 0 {
        0
    } else {
        weight(a.drop_last()) + (a.len() - 1) * a.last()
    }
}

proof fn lemma_weight_update(a: Seq<int>, k: int, x: int)
    requires
        0 <= k < a.len(),
    ensures
        weight(a.update(k, x)) == weight(a) + k * (x - a[k]),
    decreases a.len(),
{
    let b = a.update(k, x);
    if k == a.len() - 1 {
        assert(b.drop_last() =~= a.drop_last());
        assert((a.len() - 1) * x == (a.len() - 1) * a.last() + k * (x - a[k])) by (nonlinear_arith)
            requires
                k == a.len() - 1,
                a.last() == a[k],
        ;
    } else {
        assert(b.drop_last() =~= a.drop_last().update(k, x));
        lemma_weight_update(a.drop_last(), k, x);
    }
}

proof fn lemma_weight_bound(a: Seq<int>)
    requires
        forall|k: int| 0 <= k < a.len() ==> 0 <= #[trigger] a[k] < 64,
    ensures
        0 <= weight(a) <= a.len() * a.len() * 64,
    decreases a.len(),
{
    if a.len() > 0 {
        let d = a.drop_last();
        lemma_weight_bound(d);
        let n = a.len() as int;
        let w = weight(d);
        let l = a.last();
        assert(0 <= w + (n - 1) * l <= n * n * 64) by (nonlinear_arith)
            requires
                0 <= w <= (n - 1) * (n - 1) * 64,
                0 <= l < 64,
                n >= 1,
        ;
    }
}

/// Any placement can be reordered inside runs of equal letters so that the
/// cubes of each run increase.
proof fn lemma_run_order(letters: Seq<usize>, lists: Seq<Vec<usize>>, a: Seq<int>)
    requires
        is_list_assignment(letters, lists, a),
        lists_in_range(lists),
        forall|i: int| 0 <= i < letters.len() ==> (#[trigger] letters[i] as int) < lists.len(),
    ensures
        exists|b: Seq<int>| is_list_assignment(letters, lists, b) && run_ordered(letters, b),
    decreases a.len() * a.len() * 64 - weight(a),
{
    assert forall|k: int| 0 <= k < a.len() implies 0 <= #[trigger] a[k] < 64 by {
        assert(in_list(lists, letters[k], a[k]));
    }
    lemma_weight_bound(a);
    if !run_ordered(letters, a) {
        let i = choose|i: int| 0 <= i < a.len() - 1 && letters[i] == letters[i + 1] && !(#[trigger] a[i] < a[i + 1]);
        let a2 = a.update(i, a[i + 1]).update(i + 1, a[i]);
        lemma_weight_update(a, i, a[i + 1]);
        lemma_weight_update(a.update(i, a[i + 1]), i + 1, a[i]);
        assert(a[i] != a[i + 1]);
        assert(weight(a2) == weight(a) + i * (a[i + 1] - a[i]) + (i + 1) * (a[i] - a[i + 1]));
        assert(i * (a[i + 1] - a[i]) + (i + 1) * (a[i] - a[i + 1]) == a[i] - a[i + 1]) by (nonlinear_arith);
        assert forall|k: int| 0 <= k < a2.len() implies #[trigger] in_list(lists, letters[k], a2[k]) by {
            if k == i {
                assert(in_list(lists, letters[i + 1], a[i + 1]));
            } else if k == i + 1 {
                assert(in_list(lists, letters[i], a[i]));
            } else {
                assert(in_list(lists, letters[k], a[k]));
            }
        }
        assert(is_list_assignment(letters, lists, a2));
        assert forall|k: int| 0 <= k < a2.len() implies 0 <= #[trigger] a2[k] < 64 by {
            assert(in_list(lists, letters[k], a2[k]));
        }
        lemma_weight_bound(a2);
        lemma_run_order(letters, lists, a2);
    }
}

/// `b` completes the placement from position `pos` on, avoiding the cubes
/// of `used`, starting at cube `min` or above, increasing within runs.
pub open spec fn completion(
    letters: Seq<usize>,
    lists: Seq<Vec<usize>>,
    used: u64,
    pos: int,
    min: int,
    b: Seq<int>,
) -> bool {
    &&& b.len() == letters.len() - pos
    &&& forall|k: int| 0 <= k < b.len() ==> #[trigger] in_list(lists, letters[pos + k], b[k]) && !has_bit(used, b[k])
    &&& forall|k1: int, k2: int| 0 <= k1 < b.len() && 0 <= k2 < b.len() && k1 != k2 ==> b[k1] != b[k2]
    &&& b.len() > 0 ==> b[0] >= min
    &&& forall|k: int| 0 <= k < b.len() - 1 && letters[pos + k] == letters[pos + k + 1] ==> #[trigger] b[k] < b[k + 1]
}

pub open spec fn completion_from(
    letters: Seq<usize>,
    lists: Seq<Vec<usize>>,
    used: u64,
    pos: int,
    min: int,
    c: int,
) -> bool {
    exists|b: Seq<int>| completion(letters, lists, used, pos, min, b) && b[0] == c
}

proof fn lemma_completion_cons(
    ls: Seq<usize>,
    lists: Seq<Vec<usize>>,
    used: u64,
    pos: int,
    min: int,
    cube: int,
    nu: u64,
    nm: int,
    b2: Seq<int>,
)
    requires
        0 <= pos < ls.len(),
        in_list(lists, ls[pos], cube),
        cube >= min,
        !has_bit(used, cube),
        forall|x: int| #[trigger] has_bit(nu, x) == (has_bit(used, x) || x == cube),
        nm == (if pos + 1 < ls.len() && ls[pos + 1] == ls[pos] { cube + 1 } else { 0 }),
        completion(ls, lists, nu, pos + 1, nm, b2),
    ensures
        completion(ls, lists, used, pos, min, seq![cube] + b2),
{
    let b = seq![cube] + b2;
    assert forall|k: int| 0 <= k < b.len() implies #[trigger] in_list(lists, ls[pos + k], b[k]) && !has_bit(used, b[k]) by {
        if k > 0 {
            assert(b[k] == b2[k - 1]);
            assert(in_list(lists, ls[pos + 1 + (k - 1)], b2[k - 1]));
            assert(!has_bit(nu, b2[k - 1]));
        }
    }
    assert forall|k1: int, k2: int| 0 <= k1 < b.len() && 0 <= k2 < b.len() && k1 != k2 implies b[k1] != b[k2] by {
        if k1 > 0 && k2 > 0 {
            assert(b2[k1 - 1] != b2[k2 - 1]);
        } else if k1 == 0 {
            assert(in_list(lists, ls[(pos + 1) + (k2 - 1)], b2[k2 - 1]));
            assert(!has_bit(nu, b2[k2 - 1]));
        } else {
            assert(in_list(lists, ls[(pos + 1) + (k1 - 1)], b2[k1 - 1]));
            assert(!has_bit(nu, b2[k1 - 1]));
        }
    }
    assert forall|k: int| 0 <= k < b.len() - 1 && ls[pos + k] == ls[pos + k + 1] implies #[trigger] b[k] < b[k + 1] by {
        if k > 0 {
            assert(b2[k - 1] < b2[k]);
        } else {
            assert(b2[0] >= nm);
        }
    }
}

proof fn lemma_completion_tail(
    ls: Seq<usize>,
    lists: Seq<Vec<usize>>,
    used: u64,
    pos: int,
    min: int,
    cube: int,
    nu: u64,
    nm: int,
    b: Seq<int>,
)
    requires
        0 <= pos < ls.len(),
        forall|x: int| #[trigger] has_bit(nu, x) == (has_bit(used, x) || x == cube),
        nm == (if pos + 1 < ls.len() && ls[pos + 1] == ls[pos] { cube + 1 } else { 0 }),
        completion(ls, lists, used, pos, min, b),
        b[0] == cube,
    ensures
        completion(ls, lists, nu, pos + 1, nm, b.drop_first()),
{
    let b2 = b.drop_first();
    assert forall|k: int| 0 <= k < b2.len() implies #[trigger] in_list(lists, ls[pos + 1 + k], b2[k]) && !has_bit(nu, b2[k]) by {
        assert(b2[k] == b[k + 1]);
        assert(in_list(lists, ls[pos + (k + 1)], b[k + 1]));
        assert(b[k + 1] != b[0]);
    }
    assert forall|k1: int, k2: int| 0 <= k1 < b2.len() && 0 <= k2 < b2.len() && k1 != k2 implies b2[k1] != b2[k2] by {
        assert(b[k1 + 1] != b[k2 + 1]);
    }
    assert forall|k: int| 0 <= k < b2.len() - 1 && ls[pos + 1 + k] == ls[pos + 1 + k + 1] implies #[trigger] b2[k] < b2[k + 1] by {
        assert(b[k + 1] < b[k + 2]);
    }
    if b2.len() > 0 {
        assert(b2[0] == b[1]);
        assert(in_list(lists, ls[pos + 1 + 0], b2[0]));
        let l = ls[pos + 1];
        let kk = choose|kk: int| 0 <= kk < lists[l as int]@.len() && lists[l as int]@[kk] as int == b2[0];
        assert(b2[0] >= 0);
        if nm > 0 {
            assert(ls[pos + 0] == ls[pos + 0 + 1]);
            assert(b[0] < b[1]);
        }
    }
}

fn spell_dfs(pos: usize, letters: &Vec<usize>, idx: &CubeIndex, used_mask: u64, min_cube_for_run: usize) -> (ok: bool)
    requires
        pos <= letters@.len(),
        forall|i: int| 0 <= i < letters@.len() ==> (#[trigger] letters@[i] as int) < idx.cube_lists@.len(),
        lists_in_range(idx.cube_lists@),
    ensures
        ok == exists|b: Seq<int>| completion(letters@, idx.cube_lists@, used_mask, pos as int, min_cube_for_run as int, b),
    decreases letters@.len() - pos,
{
    let ghost lists = idx.cube_lists@;
    let ghost ls = letters@;
    if pos == letters.len() {
        assert(completion(ls, lists, used_mask, pos as int, min_cube_for_run as int, Seq::<int>::empty()));
        return true;
    }
    let n = letters.len();
    let letter = letters[pos];
    let cubes_for_letter = &idx.cube_lists[letter];
    let mut j: usize = 0;
    while j < cubes_for_letter.len()
        invariant
            pos < ls.len(),
            n == ls.len(),
            ls == letters@,
            lists == idx.cube_lists@,
            letter == ls[pos as int],
            (letter as int) < lists.len(),
            cubes_for_letter@ == lists[letter as int]@,
            j <= cubes_for_letter@.len(),
            forall|i: int| 0 <= i < ls.len() ==> (#[trigger] ls[i] as int) < lists.len(),
            lists_in_range(lists),
            forall|jj: int| 0 <= jj < j ==> !completion_from(ls, lists, used_mask, pos as int, min_cube_for_run as int, #[trigger] cubes_for_letter@[jj] as int),
        decreases cubes_for_letter@.len() - j,
    {
        let cube = cubes_for_letter[j];
        assert((cube as int) < 64) by {
            assert(lists[letter as int]@[j as int] == cube);
        }
        if cube >= min_cube_for_run {
            let bit = 1u64 << cube;
            if (used_mask & bit) == 0 {
                let next_min = if pos + 1 < n && letters[pos + 1] == letter {
                    cube + 1
                } else {
                    0
                };
                let nu = used_mask | bit;
                proof {
                    assert forall|x: int| #[trigger] has_bit(nu, x) == (has_bit(used_mask, x) || x == cube) by {
                        lemma_bit_or(used_mask, bit, x);
                        lemma_bit_single(cube as u64, x);
                    }
                    lemma_bit_and(used_mask, bit, cube as int);
                    lemma_bit_single(cube as u64, cube as int);
                    crate::bits::lemma_zero_no_bits(used_mask & bit);
                    assert(!has_bit(used_mask, cube as int));
                }
                let r2 = spell_dfs(pos + 1, letters, idx, nu, next_min);
                if r2 {
                    proof {
                        let p1 = pos + 1;
                        let nm = next_min as int;
                        let b2 = choose|b2: Seq<int>| completion(ls, lists, nu, p1, nm, b2);
                        assert(in_list(lists, ls[pos as int], cube as int)) by {
                            assert(lists[letter as int]@[j as int] as int == cube as int);
                        }
                        lemma_completion_cons(ls, lists, used_mask, pos as int, min_cube_for_run as int, cube as int, nu, nm, b2);
                    }
                    return true;
                }
                proof {
                    if completion_from(ls, lists, used_mask, pos as int, min_cube_for_run as int, cube as int) {
                        let b = choose|b: Seq<int>| completion(ls, lists, used_mask, pos as int, min_cube_for_run as int, b) && b[0] == cube as int;
                        lemma_completion_tail(ls, lists, used_mask, pos as int, min_cube_for_run as int, cube as int, nu, next_min as int, b);
                        let p1 = pos + 1;
                        let nm = next_min as int;
                        assert(completion(ls, lists, nu, p1, nm, b.drop_first()));
                    }
                }
            } else {
                proof {
                    lemma_bit_and(used_mask, bit, cube as int);
                    lemma_bit_single(cube as u64, cube as int);
                    assert forall|x: int| #[trigger] has_bit(used_mask & bit, x) implies x == cube by {
                        lemma_bit_and(used_mask, bit, x);
                        lemma_bit_single(cube as u64, x);
                    }
                    crate::bits::lemma_zero_no_bits(used_mask & bit);
                    assert(has_bit(used_mask, cube as int));
                    if completion_from(ls, lists, used_mask, pos as int, min_cube_for_run as int, cube as int) {
                        let b = choose|b: Seq<int>| completion(ls, lists, used_mask, pos as int, min_cube_for_run as int, b) && b[0] == cube as int;
                        let k0: int = 0;
                        assert(in_list(lists, ls[pos as int + k0], b[k0]));
                        assert(!has_bit(used_mask, b[k0]));
                        assert(false);
                    }
                }
            }
        } else {
            proof {
                if completion_from(ls, lists, used_mask, pos as int, min_cube_for_run as int, cube as int) {
                    let b = choose|b: Seq<int>| completion(ls, lists, used_mask, pos as int, min_cube_for_run as int, b) && b[0] == cube as int;
                    assert(b.len() > 0);
                }
            }
        }
        j += 1;
    }
    proof {
        assert forall|b: Seq<int>| !completion(ls, lists, used_mask, pos as int, min_cube_for_run as int, b) by {
            if completion(ls, lists, used_mask, pos as int, min_cube_for_run as int, b) {
                assert(in_list(lists, ls[pos as int + 0], b[0]));
                let k = choose|k: int| 0 <= k < lists[letter as int]@.len() && lists[letter as int]@[k] as int == b[0];
                assert(!completion_from(ls, lists, used_mask, pos as int, min_cube_for_run as int, cubes_for_letter@[k] as int));
            }
        }
    }
    false
}


pub proof fn lemma_word_letters_all_known(syms: Seq<char>, w: Seq<char>)
    requires
        all_in_alphabet(syms, w),
    ensures
        word_letters(syms, w).len() == w.len(),
    decreases w.len(),
{
    if w.len() > 0 {
        let d = w.drop_last();
        assert(all_in_alphabet(syms, d)) by {
            assert forall|i: int| 0 <= i < d.len() implies syms.contains(#[trigger] d[i]) by {
                assert(d[i] == w[i]);
            }
        }
        lemma_word_letters_all_known(syms, d);
        lemma_letter_index_props(syms, w.last());
        assert(syms.contains(w[w.len() - 1]));
    }
}

proof fn lemma_completion_gives_assignment(letters: Seq<usize>, lists: Seq<Vec<usize>>, b: Seq<int>)
    requires
        completion(letters, lists, 0, 0, 0, b),
    ensures
        is_list_assignment(letters, lists, b),
{
    assert forall|i: int| 0 <= i < b.len() implies #[trigger] in_list(lists, letters[i], b[i]) by {
        assert(in_list(lists, letters[0 + i], b[i]));
    }
}

proof fn lemma_assignment_gives_completion(letters: Seq<usize>, lists: Seq<Vec<usize>>, b: Seq<int>)
    requires
        is_list_assignment(letters, lists, b),
        run_ordered(letters, b),
    ensures
        completion(letters, lists, 0, 0, 0, b),
{
    crate::bits::lemma_zero_no_bits(0);
    assert forall|k: int| 0 <= k < b.len() implies #[trigger] in_list(lists, letters[0 + k], b[k]) && !has_bit(0, b[k]) by {
        assert(in_list(lists, letters[k], b[k]));
    }
    if b.len() > 0 {
        assert(in_list(lists, letters[0], b[0]));
        let l = letters[0];
        let kk = choose|kk: int| 0 <= kk < lists[l as int]@.len() && lists[l as int]@[kk] as int == b[0];
        assert(b[0] >= 0);
    }
    assert forall|k: int| 0 <= k < b.len() - 1 && letters[0 + k] == letters[0 + k + 1] implies #[trigger] b[k] < b[k + 1] by {
        assert(letters[k] == letters[k + 1]);
    }
}

proof fn lemma_completion_iff_spellable(letters: Seq<usize>, lists: Seq<Vec<usize>>)
    requires
        lists_in_range(lists),
        forall|i: int| 0 <= i < letters.len() ==> (#[trigger] letters[i] as int) < lists.len(),
    ensures
        (exists|b: Seq<int>| completion(letters, lists, 0, 0, 0, b)) == list_spellable(letters, lists),
{
    if exists|b: Seq<int>| completion(letters, lists, 0, 0, 0, b) {
        let b = choose|b: Seq<int>| completion(letters, lists, 0, 0, 0, b);
        lemma_completion_gives_assignment(letters, lists, b);
    }
    if list_spellable(letters, lists) {
        let a = choose|a: Seq<int>| is_list_assignment(letters, lists, a);
        lemma_run_order(letters, lists, a);
        let b = choose|b: Seq<int>| is_list_assignment(letters, lists, b) && run_ordered(letters, b);
        lemma_assignment_gives_completion(letters, lists, b);
    }
}

/// Exact spellability test: every scalar of `word` must be a letter of the
/// alphabet, there must be no more letters than cubes, and the letters must
/// be placeable on distinct cubes taken from their cube lists.  Letters are
/// tried most-constrained first; within a run of equal letters cubes are
/// taken in increasing order.
pub fn can_spell_word(alpha: &Alphabet, word: &str, idx: &CubeIndex) -> (ok: bool)
    requires
        idx.cube_lists@.len() == alpha@.len(),
        lists_in_range(idx.cube_lists@),
    ensures
        ok == spells(alpha@, word@, idx.cube_lists@),
{
    let ghost syms = alpha@;
    let ghost lists = idx.cube_lists@;
    let cs = crate::text::chars_of(word);
    let mut i: usize = 0;
    while i < cs.len()
        invariant
            i <= cs@.len(),
            cs@ == word@,
            syms == alpha@,
            forall|t: int| 0 <= t < i ==> syms.contains(#[trigger] cs@[t]),
        decreases cs.len() - i,
    {
        proof {
            lemma_letter_index_props(syms, cs@[i as int]);
        }
        if crate::alphabet::char_index(alpha, cs[i]).is_none() {
            assert(!all_in_alphabet(syms, word@)) by {
                assert(!syms.contains(word@[i as int]));
            }
            return false;
        }
        i += 1;
    }
    assert(all_in_alphabet(syms, word@));
    let mut letters = letters_of_word(alpha, word);
    let ghost ls = letters@;
    proof {
        lemma_word_letters_all_known(syms, word@);
        lemma_word_letters_bounded(syms, word@);
    }
    if letters.len() > N_CUBES {
        return false;
    }
    sort_by_candidates(&mut letters, &idx.cube_lists);
    let ghost sorted = letters@;
    proof {
        let (p, q) = choose|p: Seq<int>, q: Seq<int>| permuted(ls, sorted, p, q);
        lemma_permuted_spellable(ls, sorted, p, q, lists);
        assert(ls == word_letters(syms, word@));
    }
    let mut k: usize = 0;
    while k < letters.len()
        invariant
            k <= letters@.len(),
            letters@ == sorted,
            lists == idx.cube_lists@,
            forall|t: int| 0 <= t < sorted.len() ==> (#[trigger] sorted[t] as int) < lists.len(),
            list_spellable(sorted, lists) == spells(alpha@, word@, idx.cube_lists@),
        decreases letters.len() - k,
    {
        if idx.cube_lists[letters[k]].len() == 0 {
            proof {
                if list_spellable(sorted, lists) {
                    let a = choose|a: Seq<int>| is_list_assignment(sorted, lists, a);
                    assert(in_list(lists, sorted[k as int], a[k as int]));
                }
            }
            return false;
        }
        k += 1;
    }
    proof {
        lemma_completion_iff_spellable(sorted, lists);
    }
    spell_dfs(0, &letters, idx, 0, 0)
}

/// Pigeonhole: letter instances that sit on distinct cubes number at most
/// `N_CUBES`.
pub proof fn lemma_assignment_fits(letters: Seq<usize>, masks: Seq<u64>, a: Seq<int>)
    requires
        is_cube_assignment(letters, masks, a),
    ensures
        letters.len() <= N_CUBES,
{
    assert(a.no_duplicates());
    a.unique_seq_to_set();
    vstd::set_lib::lemma_int_range(0, N_CUBES as int);
    assert forall|x: int| #[trigger] a.to_set().contains(x) implies vstd::set_lib::set_int_range(0, N_CUBES as int).contains(x) by {
        let i = choose|i: int| 0 <= i < a.len() && a[i] == x;
        assert(cube_carries(masks, letters[i], a[i]));
    }
    vstd::set_lib::lemma_len_subset(a.to_set(), vstd::set_lib::set_int_range(0, N_CUBES as int));
}

/// The two spellability tests agree.  For a word whose scalars all belong to
/// the alphabet, the backtracking test on the cube index built from the
/// masks succeeds exactly when the matching places every letter instance on
/// its own cube, that is, exactly when no Hall certificate exists.
pub proof fn law_backtracking_agrees_with_matching(syms: Seq<char>, word: Seq<char>, masks: Seq<u64>, idx: CubeIndex)
    requires
        masks.len() == syms.len(),
        index_of_masks(idx, masks),
        all_in_alphabet(syms, word),
    ensures
        spells(syms, word, idx.cube_lists@) == mask_spellable(word_letters(syms, word), masks),
{
    let ls = word_letters(syms, word);
    let lists = idx.cube_lists@;
    lemma_word_letters_all_known(syms, word);
    lemma_word_letters_bounded(syms, word);
    if list_spellable(ls, lists) {
        let a = choose|a: Seq<int>| is_list_assignment(ls, lists, a);
        assert forall|i: int| 0 <= i < a.len() implies cube_carries(masks, ls[i], #[trigger] a[i]) by {
            assert(in_list(lists, ls[i], a[i]));
            assert((ls[i] as int) < masks.len());
            assert(in_list(idx.cube_lists@, (ls[i] as int) as usize, a[i]));
        }
        assert(is_cube_assignment(ls, masks, a));
    }
    if mask_spellable(ls, masks) {
        let a = choose|a: Seq<int>| is_cube_assignment(ls, masks, a);
        lemma_assignment_fits(ls, masks, a);
        assert forall|i: int| 0 <= i < a.len() implies #[trigger] in_list(lists, ls[i], a[i]) by {
            assert(cube_carries(masks, ls[i], a[i]));
            assert((ls[i] as int) < masks.len());
            assert(in_list(idx.cube_lists@, (ls[i] as int) as usize, a[i]));
        }
        assert(is_list_assignment(ls, lists, a));
    }
}

/// The words of `ws` that `can_spell_word` rejects, in their input order.
pub open spec fn failed_words(syms: Seq<char>, ws: Seq<String>, lists: Seq<Vec<usize>>) -> Seq<Seq<char>>
    decreases ws.len(),
{
    if ws.len() == 0 {
        Seq::empty()
    } else {
        let prev = failed_words(syms, ws.drop_last(), lists);
        if spells(syms, ws.last()@, lists) {
            prev
        } else {
            prev.push(ws.last()@)
        }
    }
}

/// Check every word; returns whether all are spellable and the words that
/// are not, in input order.
pub fn verify_all(alpha: &Alphabet, words: &[String], idx: &CubeIndex) -> (r: (bool, Vec<String>))
    requires
        idx.cube_lists@.len() == alpha@.len(),
        lists_in_range(idx.cube_lists@),
    ensures
        r.1@.len() == failed_words(alpha@, words@, idx.cube_lists@).len(),
        forall|k: int| 0 <= k < r.1@.len() ==> #[trigger] r.1@[k]@ == failed_words(alpha@, words@, idx.cube_lists@)[k],
        r.0 == (r.1@.len() == 0),
{
    let ghost syms = alpha@;
    let ghost lists = idx.cube_lists@;
    let mut out: Vec<String> = Vec::new();
    let mut i: usize = 0;
    while i < words.len()
        invariant
            i <= words@.len(),
            syms == alpha@,
            lists == idx.cube_lists@,
            idx.cube_lists@.len() == alpha@.len(),
            lists_in_range(idx.cube_lists@),
            out@.len() == failed_words(syms, words@.take(i as int), lists).len(),
            forall|k: int| 0 <= k < out@.len() ==> #[trigger] out@[k]@ == failed_words(syms, words@.take(i as int), lists)[k],
        decreases words.len() - i,
    {
        let ok = can_spell_word(alpha, words[i].as_str(), idx);
        proof {
            assert(words@.take(i + 1).drop_last() =~= words@.take(i as int));
            assert(words@.take(i + 1).last() == words@[i as int]);
        }
        if !ok {
            out.push(words[i].clone());
        }
        i += 1;
    }
    assert(words@.take(words@.len() as int) =~= words@);
    let all_ok = out.len() == 0;
    (all_ok, out)
}

} // verus!
