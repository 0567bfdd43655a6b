//! Bipartite matching between the letter instances of a word and the cubes
//! (Hall's theorem): a word is spellable exactly when every letter instance
//! can be given its own cube carrying that letter.  When it is not, the
//! alternating-reachability set from the unmatched instances is a Hall
//! violator whose deficiency is the number of instances left unplaced.

use vstd::prelude::*;
use std::collections::VecDeque;
use crate::alphabet::{Alphabet, word_letters, letters_of_word, index_char, lemma_word_letters_bounded};
use crate::bits::{has_bit, lemma_lowest_bit, lemma_zero_no_bits};
use crate::types::N_CUBES;

verus! {

/* ------------------------------------------------------------------ */
/* Spellability model                                                 */
/* ------------------------------------------------------------------ */

/// Cube `c` (one of the `N_CUBES` cubes) carries letter `l`.
pub open spec fn cube_carries(masks: Seq<u64>, l: usize, c: int) -> bool {
    0 <= c < N_CUBES && has_bit(masks[l as int], c)
}

/// `a` gives every letter instance its own cube that carries the letter.
pub open spec fn is_cube_assignment(letters: Seq<usize>, masks: Seq<u64>, a: Seq<int>) -> bool {
    &&& a.len() == letters.len()
    &&& forall|i: int| 0 <= i < a.len() ==> cube_carries(masks, letters[i], #[trigger] a[i])
    &&& forall|i: int, j: int| 0 <= i < a.len() && 0 <= j < a.len() && i != j ==> a[i] != a[j]
}

/// The letter instances can be placed on distinct cubes.
pub open spec fn mask_spellable(letters: Seq<usize>, masks: Seq<u64>) -> bool {
    exists|a: Seq<int>| is_cube_assignment(letters, masks, a)
}

/// `a` places some instances (entries >= 0) on distinct carrying cubes and
/// leaves the others (entries < 0) unplaced.
pub open spec fn is_partial_assignment(letters: Seq<usize>, masks: Seq<u64>, a: Seq<int>) -> bool {
    &&& a.len() == letters.len()
    &&& forall|i: int| 0 <= i < a.len() && a[i] >= 0 ==> cube_carries(masks, letters[i], #[trigger] a[i])
    &&& forall|i: int, j: int|
        0 <= i < a.len() && 0 <= j < a.len() && i != j && a[i] >= 0 && a[j] >= 0 ==> a[i] != a[j]
}

/// The instances that a partial assignment places.
pub open spec fn placed(a: Seq<int>) -> Set<int> {
    Set::new(|i: int| 0 <= i < a.len() && a[i] >= 0)
}

/// The cubes that carry at least one letter of `cs`.
pub open spec fn neighborhood(masks: Seq<u64>, cs: Seq<usize>) -> Set<int> {
    Set::new(|c: int| exists|t: int| 0 <= t < cs.len() && cube_carries(masks, cs[t], c))
}

/// `cs` is the subsequence of `letters` at the strictly increasing positions `pos`.
pub open spec fn subsequence_at(cs: Seq<usize>, letters: Seq<usize>, pos: Seq<int>) -> bool {
    &&& pos.len() == cs.len()
    &&& forall|k: int| 0 <= k < pos.len() ==> 0 <= #[trigger] pos[k] < letters.len()
    &&& forall|k: int| 0 <= k < pos.len() ==> cs[k] == letters[#[trigger] pos[k]]
    &&& forall|k1: int, k2: int| 0 <= k1 < k2 < pos.len() ==> pos[k1] < pos[k2]
}

/// A Hall certificate: `cs` is a sub-multiset of the word's letter instances
/// with `d` more instances than cubes able to carry them, and `d` is exactly
/// the number of instances that a best placement leaves unplaced.
pub open spec fn hall_certificate(letters: Seq<usize>, masks: Seq<u64>, cs: Seq<usize>, d: int) -> bool {
    &&& d > 0
    &&& (exists|pos: Seq<int>| subsequence_at(cs, letters, pos))
    &&& neighborhood(masks, cs).finite()
    &&& d == cs.len() - neighborhood(masks, cs).len()
    &&& exists|a: Seq<int>|
        is_partial_assignment(letters, masks, a) && #[trigger] placed(a).len() == letters.len() - d
}

/// `p` is a chain of letter instances that starts at one `a` leaves
/// unplaced; each later instance is placed on a cube that carries the
/// letter of the instance before it.
pub open spec fn alt_chain(letters: Seq<usize>, masks: Seq<u64>, a: Seq<int>, p: Seq<int>) -> bool {
    &&& p.len() > 0
    &&& forall|i: int| 0 <= i < p.len() ==> 0 <= #[trigger] p[i] < a.len()
    &&& a[p[0]] < 0
    &&& forall|i: int| 1 <= i < p.len() ==> a[#[trigger] p[i]] >= 0 && cube_carries(masks, letters[p[i - 1]], a[p[i]])
}

/// Instance `u` ends such a chain: it is reached by alternating paths from
/// the instances `a` leaves unplaced.
pub open spec fn alt_reachable(letters: Seq<usize>, masks: Seq<u64>, a: Seq<int>, u: int) -> bool {
    exists|p: Seq<int>| #[trigger] alt_chain(letters, masks, a, p) && p.last() == u
}

/// `cs` holds, in word order, the letters of exactly the instances that a
/// best placement `a` (one leaving `d` instances unplaced) reaches by
/// alternating paths from the instances it leaves unplaced.
pub open spec fn reach_certificate(letters: Seq<usize>, masks: Seq<u64>, cs: Seq<usize>, d: int) -> bool {
    exists|a: Seq<int>, pos: Seq<int>|
        #![trigger is_partial_assignment(letters, masks, a), subsequence_at(cs, letters, pos)]
        is_partial_assignment(letters, masks, a) && placed(a).len() == letters.len() - d && subsequence_at(cs, letters, pos)
            && forall|u: int| 0 <= u < letters.len() ==> (pos.contains(u) <==> alt_reachable(letters, masks, a, u))
}

/// The alphabet symbols of the letter indices `cs`.
pub open spec fn symbols_of(syms: Seq<char>, cs: Seq<usize>) -> Seq<char> {
    cs.map_values(|l: usize| syms[l as int])
}

/* ------------------------------------------------------------------ */
/* Graph / matching model used inside Hopcroft–Karp                   */
/* ------------------------------------------------------------------ */

pub open spec fn edge(adj: Seq<Vec<usize>>, u: int, v: int) -> bool {
    exists|k: int| 0 <= k < adj[u]@.len() && adj[u]@[k] == v
}

pub open spec fn graph_ok(adj: Seq<Vec<usize>>, nr: int) -> bool {
    forall|u: int, k: int|
        0 <= u < adj.len() && 0 <= k < adj[u]@.len() ==> (#[trigger] adj[u]@[k] as int) < nr
}

pub open spec fn matching_ok(
    adj: Seq<Vec<usize>>,
    nr: int,
    pu: Seq<Option<usize>>,
    pv: Seq<Option<usize>>,
) -> bool {
    &&& pu.len() == adj.len()
    &&& pv.len() == nr
    &&& forall|u: int| 0 <= u < pu.len() && (#[trigger] pu[u]) is Some ==> {
        let v = pu[u]->0 as int;
        &&& v < nr
        &&& pv[v] == Some(u as usize)
        &&& edge(adj, u, v)
    }
    &&& forall|v: int| 0 <= v < nr && (#[trigger] pv[v]) is Some ==> {
        let u = pv[v]->0 as int;
        &&& u < pu.len()
        &&& pu[u] == Some(v as usize)
    }
}

pub open spec fn matched_set(pu: Seq<Option<usize>>) -> Set<int> {
    Set::new(|u: int| 0 <= u < pu.len() && pu[u] is Some)
}

/// Every free left lies in `r`, and every neighbour of a node of `r` is
/// matched to a node of `r`: no augmenting path leaves `r`.
pub open spec fn alt_closed(
    adj: Seq<Vec<usize>>,
    pu: Seq<Option<usize>>,
    pv: Seq<Option<usize>>,
    r: Set<int>,
) -> bool {
    &&& forall|u: int| 0 <= u < pu.len() && pu[u] is None ==> #[trigger] r.contains(u)
    &&& forall|u: int, k: int|
        #![trigger r.contains(u), adj[u]@[k]]
        r.contains(u) && 0 <= k < adj[u]@.len() ==> {
            &&& 0 <= u < adj.len()
            &&& pv[adj[u]@[k] as int] is Some
            &&& r.contains(pv[adj[u]@[k] as int]->0 as int)
        }
}

/// A layered-path witness: from `u` there is a path along which BFS levels
/// increase by one, alternating through matched cubes, ending at a free cube.
pub open spec fn good(adj: Seq<Vec<usize>>, pv: Seq<Option<usize>>, d: Seq<i32>, u: int) -> bool
    decreases d.len() - d[u],
{
    &&& 0 <= u < adj.len()
    &&& d.len() == adj.len()
    &&& 0 <= d[u] < d.len()
    &&& exists|k: int|
        #![trigger adj[u]@[k]]
        0 <= k < adj[u]@.len() && match pv[adj[u]@[k] as int] {
            None => true,
            Some(u2) => 0 <= u2 < d.len() && d[u2 as int] == d[u] + 1 && good(adj, pv, d, u2 as int),
        }
}


/// BFS levels over alternating paths: free lefts are at level 0, every other
/// reached left hangs off a left one level lower through its matched cube.
pub open spec fn bfs_levels(
    adj: Seq<Vec<usize>>,
    pu: Seq<Option<usize>>,
    pv: Seq<Option<usize>>,
    d: Seq<i32>,
) -> bool {
    &&& d.len() == adj.len()
    &&& forall|u: int| 0 <= u < d.len() ==> -1 <= #[trigger] d[u] < d.len()
    &&& forall|u: int| 0 <= u < d.len() ==> ((#[trigger] d[u] == 0) == (pu[u] is None))
    &&& forall|u: int|
        0 <= u < d.len() && #[trigger] d[u] > 0 ==> exists|p: int, k: int|
            #![trigger adj[p]@[k], d[p]]
            0 <= p < d.len() && 0 <= k < adj[p]@.len() && d[p] == d[u] - 1 && pv[adj[p]@[k] as int]
                == Some(u as usize)
}

pub open spec fn reached(d: Seq<i32>) -> Set<int> {
    Set::new(|u: int| 0 <= u < d.len() && d[u] >= 0)
}

pub open spec fn free_cube_near(adj: Seq<Vec<usize>>, pv: Seq<Option<usize>>, u: int) -> bool {
    exists|k: int| 0 <= k < adj[u]@.len() && pv[#[trigger] adj[u]@[k] as int] is None
}

fn bfs_layering(
    n_left: usize,
    adj: &Vec<Vec<usize>>,
    pair_u: &Vec<Option<usize>>,
    pair_v: &Vec<Option<usize>>,
    dist: &mut Vec<i32>,
) -> (found: bool)
    requires
        n_left == adj@.len(),
        n_left < i32::MAX,
        graph_ok(adj@, pair_v@.len() as int),
        matching_ok(adj@, pair_v@.len() as int, pair_u@, pair_v@),
        old(dist)@.len() == n_left,
    ensures
        bfs_levels(adj@, pair_u@, pair_v@, final(dist)@),
        found ==> exists|u: int|
            0 <= u < n_left && final(dist)@[u] >= 0 && #[trigger] free_cube_near(adj@, pair_v@, u),
        !found ==> alt_closed(adj@, pair_u@, pair_v@, reached(final(dist)@)),
{
    let ghost nr = pair_v@.len() as int;
    let mut q: VecDeque<usize> = VecDeque::new();
    let mut u: usize = 0;
    while u < n_left
        invariant
            u <= n_left,
            n_left == adj@.len(),
            pair_u@.len() == n_left,
            dist@.len() == n_left,
            forall|x: int| 0 <= x < u ==> ((#[trigger] dist@[x] == 0) == (pair_u@[x] is None)),
            forall|x: int| 0 <= x < u ==> (#[trigger] dist@[x] == -1) || dist@[x] == 0,
            forall|x: int| 0 <= x < u ==> (#[trigger] dist@[x] == 0 <==> q@.contains(x as usize)),
            forall|i: int| 0 <= i < q@.len() ==> (#[trigger] q@[i] as int) < u,
            forall|i: int, j: int| 0 <= i < j < q@.len() ==> q@[i] != q@[j],
        decreases n_left - u,
    {
        let ghost q0 = q@;
        if pair_u[u].is_none() {
            dist.set(u, 0);
            q.push_back(u);
        } else {
            dist.set(u, -1);
        }
        proof {
            assert forall|x: int| 0 <= x < u + 1 implies (#[trigger] dist@[x] == 0 <==> q@.contains(x as usize)) by {
                if q@.contains(x as usize) {
                    let i = choose|i: int| 0 <= i < q@.len() && q@[i] == x as usize;
                    if i < q0.len() {
                        assert(q0[i] == x as usize);
                    }
                }
                if x < u && q0.contains(x as usize) {
                    let i = choose|i: int| 0 <= i < q0.len() && q0[i] == x as usize;
                    assert(q@[i] == x as usize);
                }
                if x == u && pair_u@[x] is None {
                    assert(q@[q@.len() - 1] == x as usize);
                }
            }
        }
        u += 1;
    }
    let mut found_free_right = false;
    let ghost mut processed: Set<int> = Set::empty();
    loop
        invariant_except_break
            n_left == adj@.len(),
            n_left < i32::MAX,
            nr == pair_v@.len(),
            graph_ok(adj@, nr),
            matching_ok(adj@, nr, pair_u@, pair_v@),
            dist@.len() == n_left,
            forall|x: int| 0 <= x < n_left ==> -1 <= #[trigger] dist@[x],
            forall|x: int| 0 <= x < n_left ==> ((#[trigger] dist@[x] == 0) == (pair_u@[x] is None)),
            forall|x: int|
                0 <= x < n_left && #[trigger] dist@[x] > 0 ==> exists|p: int, k: int|
                    #![trigger adj@[p]@[k], dist@[p]]
                    0 <= p < n_left && 0 <= k < adj@[p]@.len() && dist@[p] == dist@[x] - 1
                        && pair_v@[adj@[p]@[k] as int] == Some(x as usize),
            forall|i: int| 0 <= i < q@.len() ==> (#[trigger] q@[i] as int) < n_left,
            forall|i: int, j: int| 0 <= i < j < q@.len() ==> q@[i] != q@[j],
            forall|i: int| 0 <= i < q@.len() ==> !processed.contains(#[trigger] q@[i] as int),
            forall|x: int| processed.contains(x) ==> 0 <= x < n_left,
            processed.finite(),
            forall|x: int|
                0 <= x < n_left && #[trigger] dist@[x] >= 0 ==> processed.contains(x) || q@.contains(
                    x as usize,
                ),
            forall|x: int| #[trigger] processed.contains(x) ==> dist@[x] >= 0 && dist@[x] < processed.len(),
            forall|i: int| 0 <= i < q@.len() ==> dist@[#[trigger] q@[i] as int] >= 0 && dist@[q@[i] as int] <= processed.len(),
            forall|x: int, k: int|
                #![trigger processed.contains(x), adj@[x]@[k]]
                processed.contains(x) && 0 <= k < adj@[x]@.len() ==> match pair_v@[adj@[x]@[k] as int] {
                    None => found_free_right,
                    Some(u2) => dist@[u2 as int] >= 0,
                },
            found_free_right ==> exists|x: int|
                0 <= x < n_left && dist@[x] >= 0 && #[trigger] free_cube_near(adj@, pair_v@, x),
        ensures
            q@.len() == 0,
            dist@.len() == n_left,
            forall|x: int| 0 <= x < n_left ==> -1 <= #[trigger] dist@[x],
            forall|x: int| 0 <= x < n_left ==> ((#[trigger] dist@[x] == 0) == (pair_u@[x] is None)),
            forall|x: int|
                0 <= x < n_left && #[trigger] dist@[x] > 0 ==> exists|p: int, k: int|
                    #![trigger adj@[p]@[k], dist@[p]]
                    0 <= p < n_left && 0 <= k < adj@[p]@.len() && dist@[p] == dist@[x] - 1
                        && pair_v@[adj@[p]@[k] as int] == Some(x as usize),
            forall|x: int| processed.contains(x) ==> 0 <= x < n_left,
            processed.finite(),
            forall|x: int| 0 <= x < n_left && #[trigger] dist@[x] >= 0 ==> processed.contains(x),
            forall|x: int| #[trigger] processed.contains(x) ==> dist@[x] >= 0 && dist@[x] < processed.len(),
            forall|x: int, k: int|
                #![trigger processed.contains(x), adj@[x]@[k]]
                processed.contains(x) && 0 <= k < adj@[x]@.len() ==> match pair_v@[adj@[x]@[k] as int] {
                    None => found_free_right,
                    Some(u2) => dist@[u2 as int] >= 0,
                },
            found_free_right ==> exists|x: int|
                0 <= x < n_left && dist@[x] >= 0 && #[trigger] free_cube_near(adj@, pair_v@, x),
        decreases n_left - processed.len(),
    {
        let ghost old_q = q@;
        let uo = q.pop_front();
        match uo {
            None => {
                break;
            },
            Some(u) => {
                let ghost p_before = processed.len();
                proof {
                    assert forall|x: int|
                        0 <= x < n_left && #[trigger] dist@[x] >= 0 implies processed.insert(u as int).contains(x) || q@.contains(
                            x as usize) by {
                        if x != u && !processed.contains(x) {
                            assert(old_q.contains(x as usize));
                            let i = choose|i: int| 0 <= i < old_q.len() && old_q[i] == x as usize;
                            assert(i != 0);
                            assert(q@[i - 1] == x as usize);
                        }
                    }
                    processed = processed.insert(u as int);
                    vstd::set_lib::lemma_int_range(0, n_left as int);
                    vstd::set_lib::lemma_len_subset(processed, vstd::set_lib::set_int_range(0, n_left as int));
                }
                let du = dist[u];
                let mut k: usize = 0;
                while k < adj[u].len()
                    invariant
                        n_left == adj@.len(),
                        n_left < i32::MAX,
                        nr == pair_v@.len(),
                        graph_ok(adj@, nr),
                        matching_ok(adj@, nr, pair_u@, pair_v@),
                        (u as int) < n_left,
                        processed.contains(u as int),
                        processed.len() == p_before + 1,
                        processed.len() <= n_left,
                        du == dist@[u as int],
                        0 <= du <= p_before,
                        k <= adj@[u as int]@.len(),
                        dist@.len() == n_left,
                        forall|x: int| 0 <= x < n_left ==> -1 <= #[trigger] dist@[x],
                        forall|x: int| 0 <= x < n_left ==> ((#[trigger] dist@[x] == 0) == (pair_u@[x] is None)),
                        forall|x: int|
                            0 <= x < n_left && #[trigger] dist@[x] > 0 ==> exists|p: int, kk: int|
                                #![trigger adj@[p]@[kk], dist@[p]]
                                0 <= p < n_left && 0 <= kk < adj@[p]@.len() && dist@[p] == dist@[x] - 1
                                    && pair_v@[adj@[p]@[kk] as int] == Some(x as usize),
                        forall|i: int| 0 <= i < q@.len() ==> (#[trigger] q@[i] as int) < n_left,
                        forall|i: int, j: int| 0 <= i < j < q@.len() ==> q@[i] != q@[j],
                        forall|i: int| 0 <= i < q@.len() ==> !processed.contains(#[trigger] q@[i] as int),
                        forall|x: int| processed.contains(x) ==> 0 <= x < n_left,
                        processed.finite(),
                        forall|x: int|
                            0 <= x < n_left && #[trigger] dist@[x] >= 0 ==> processed.contains(x) || q@.contains(
                                x as usize,
                            ),
                        forall|x: int| #[trigger] processed.contains(x) ==> dist@[x] >= 0 && dist@[x] < processed.len(),
                        forall|i: int| 0 <= i < q@.len() ==> dist@[#[trigger] q@[i] as int] >= 0 && dist@[q@[i] as int] <= processed.len(),
                        forall|x: int, kk: int|
                            #![trigger processed.contains(x), adj@[x]@[kk]]
                            processed.contains(x) && 0 <= kk < adj@[x]@.len() && (x != u || kk < k) ==> match pair_v@[adj@[x]@[kk] as int] {
                                None => found_free_right,
                                Some(u2) => dist@[u2 as int] >= 0,
                            },
                        found_free_right ==> exists|x: int|
                            0 <= x < n_left && dist@[x] >= 0 && #[trigger] free_cube_near(adj@, pair_v@, x),
                    decreases adj@[u as int]@.len() - k,
                {
                    let v = adj[u][k];
                    assert(adj@[u as int]@[k as int] == v);
                    match pair_v[v] {
                        Some(u2) => {
                            if dist[u2] == -1 {
                                assert(q@.contains(u2) ==> dist@[u2 as int] >= 0) by {
                                    if q@.contains(u2) {
                                        let i = choose|i: int| 0 <= i < q@.len() && q@[i] == u2;
                                        assert(dist@[q@[i] as int] >= 0);
                                    }
                                }
                                let ghost q1 = q@;
                                let ghost d1 = dist@;
                                dist.set(u2, du + 1);
                                q.push_back(u2);
                                assert(dist@[u as int] == du);
                                proof {
                                    assert(pair_v@[adj@[u as int]@[k as int] as int] == Some(u2));
                                    assert(dist@[u as int] == dist@[u2 as int] - 1);
                                    assert forall|x: int|
                                        0 <= x < n_left && #[trigger] dist@[x] > 0 implies exists|p: int, kk: int|
                                            #![trigger adj@[p]@[kk], dist@[p]]
                                            0 <= p < n_left && 0 <= kk < adj@[p]@.len() && dist@[p] == dist@[x] - 1
                                                && pair_v@[adj@[p]@[kk] as int] == Some(x as usize) by {
                                        if x == u2 {
                                            assert(adj@[u as int]@[k as int] == v);
                                        } else {
                                            assert(d1[x] > 0);
                                            let (p, kk) = choose|p: int, kk: int|
                                                #![trigger adj@[p]@[kk], d1[p]]
                                                0 <= p < n_left && 0 <= kk < adj@[p]@.len() && d1[p] == d1[x] - 1
                                                    && pair_v@[adj@[p]@[kk] as int] == Some(x as usize);
                                            assert(d1[p] >= 0);
                                            assert(dist@[p] == d1[p]);
                                        }
                                    }
                                    assert forall|x: int|
                                        0 <= x < n_left && #[trigger] dist@[x] >= 0 implies processed.contains(x) || q@.contains(
                                            x as usize) by {
                                        if x == u2 {
                                            assert(q@[q@.len() - 1] == u2);
                                        } else if !processed.contains(x) {
                                            assert(q1.contains(x as usize));
                                            let i = choose|i: int| 0 <= i < q1.len() && q1[i] == x as usize;
                                            assert(q@[i] == x as usize);
                                        }
                                    }
                                }
                            }
                        },
                        None => {
                            found_free_right = true;
                            assert(free_cube_near(adj@, pair_v@, u as int));
                        },
                    }
                    k += 1;
                }
            },
        }
    }
    proof {
        vstd::set_lib::lemma_int_range(0, n_left as int);
        vstd::set_lib::lemma_len_subset(processed, vstd::set_lib::set_int_range(0, n_left as int));
        if !found_free_right {
            let r = reached(dist@);
            assert forall|x: int, kk: int|
                #![trigger r.contains(x), adj@[x]@[kk]]
                r.contains(x) && 0 <= kk < adj@[x]@.len() implies {
                    &&& 0 <= x < adj@.len()
                    &&& pair_v@[adj@[x]@[kk] as int] is Some
                    &&& r.contains(pair_v@[adj@[x]@[kk] as int]->0 as int)
                } by {
                assert(processed.contains(x));
                let vv = adj@[x]@[kk] as int;
                assert(vv < nr);
                let u2 = pair_v@[vv]->0 as int;
                assert(0 <= u2 < n_left);
            }
        }
    }
    found_free_right
}


/// Edge `k` of `u` continues a layered path (see `good`).
pub open spec fn good_edge(adj: Seq<Vec<usize>>, pv: Seq<Option<usize>>, d: Seq<i32>, u: int, k: int) -> bool {
    match pv[adj[u]@[k] as int] {
        None => true,
        Some(u2) => 0 <= u2 < d.len() && d[u2 as int] == d[u] + 1 && good(adj, pv, d, u2 as int),
    }
}

/// Levels only ever drop to -1, and only for lefts with no layered path.
pub open spec fn level_inv(adj: Seq<Vec<usize>>, pv0: Seq<Option<usize>>, d0: Seq<i32>, dist: Seq<i32>) -> bool {
    &&& dist.len() == d0.len()
    &&& forall|x: int|
        0 <= x < dist.len() ==> #[trigger] dist[x] == d0[x] || (dist[x] == -1 && !good(adj, pv0, d0, x))
}

/// After augmenting from `u`: `u` holds a new cube, every other left keeps its
/// matched status, and the only inconsistency left is `u`'s former cube,
/// which still points back to `u`.
pub open spec fn augmented(
    adj: Seq<Vec<usize>>,
    nr: int,
    pu: Seq<Option<usize>>,
    pv: Seq<Option<usize>>,
    pu2: Seq<Option<usize>>,
    pv2: Seq<Option<usize>>,
    u: int,
) -> bool {
    &&& pu2.len() == pu.len()
    &&& pv2.len() == pv.len()
    &&& pu2[u] is Some
    &&& (pu2[u]->0 as int) < nr
    &&& edge(adj, u, pu2[u]->0 as int)
    &&& pv2[pu2[u]->0 as int] == Some(u as usize)
    &&& pu[u] != pu2[u]
    &&& forall|x: int| 0 <= x < pu.len() && x != u ==> ((#[trigger] pu2[x]) is Some) == (pu[x] is Some)
    &&& forall|x: int| 0 <= x < pu.len() && x != u && (#[trigger] pu2[x]) is Some ==> {
        let y = pu2[x]->0 as int;
        &&& y < nr
        &&& pv2[y] == Some(x as usize)
        &&& edge(adj, x, y)
    }
    &&& forall|y: int| 0 <= y < nr && (#[trigger] pv2[y]) is Some ==> {
        let x = pv2[y]->0 as int;
        &&& 0 <= x < pu.len()
        &&& (pu2[x] == Some(y as usize) || (x == u && pu[u] == Some(y as usize)))
    }
    &&& pu[u] is Some ==> pv2[pu[u]->0 as int] == Some(u as usize)
}

fn dfs_augment(
    u: usize,
    adj: &Vec<Vec<usize>>,
    dist: &mut Vec<i32>,
    pair_u: &mut Vec<Option<usize>>,
    pair_v: &mut Vec<Option<usize>>,
    Ghost(level): Ghost<int>,
    Ghost(d0): Ghost<Seq<i32>>,
    Ghost(pv0): Ghost<Seq<Option<usize>>>,
) -> (ok: bool)
    requires
        adj@.len() < i32::MAX,
        (u as int) < adj@.len(),
        graph_ok(adj@, old(pair_v)@.len() as int),
        matching_ok(adj@, old(pair_v)@.len() as int, old(pair_u)@, old(pair_v)@),
        old(dist)@.len() == adj@.len(),
        forall|x: int| 0 <= x < adj@.len() ==> -1 <= #[trigger] old(dist)@[x] < adj@.len(),
        level == old(dist)@[u as int],
        d0.len() == adj@.len(),
        forall|x: int| 0 <= x < adj@.len() ==> -1 <= #[trigger] d0[x] < adj@.len(),
    ensures
        final(pair_u)@.len() == old(pair_u)@.len(),
        final(pair_v)@.len() == old(pair_v)@.len(),
        final(dist)@.len() == adj@.len(),
        forall|x: int| 0 <= x < adj@.len() ==> -1 <= #[trigger] final(dist)@[x] < adj@.len(),
        forall|x: int|
            0 <= x < adj@.len() ==> #[trigger] final(dist)@[x] == old(dist)@[x] || (final(dist)@[x] == -1
                && old(dist)@[x] >= level),
        forall|x: int|
            0 <= x < adj@.len() && #[trigger] final(pair_u)@[x] != old(pair_u)@[x] ==> old(dist)@[x] >= level,
        !ok ==> final(pair_u)@ == old(pair_u)@ && final(pair_v)@ == old(pair_v)@,
        ok ==> augmented(
            adj@,
            old(pair_v)@.len() as int,
            old(pair_u)@,
            old(pair_v)@,
            final(pair_u)@,
            final(pair_v)@,
            u as int,
        ),
        (old(pair_v)@ == pv0 && level_inv(adj@, pv0, d0, old(dist)@) && good(adj@, pv0, d0, u as int))
            ==> ok,
        (old(pair_v)@ == pv0 && level_inv(adj@, pv0, d0, old(dist)@) && !ok) ==> level_inv(
            adj@,
            pv0,
            d0,
            final(dist)@,
        ),
    decreases adj@.len() - level,
{
    let ghost n = adj@.len();
    let ghost nr = pair_v@.len() as int;
    let nr_exec: usize = pair_v.len();
    let ghost cond = old(pair_v)@ == pv0 && level_inv(adj@, pv0, d0, old(dist)@);
    let ghost dist_in = dist@;
    let ghost pu_in = pair_u@;
    let ghost pv_in = pair_v@;
    let mut k: usize = 0;
    while k < adj[u].len()
        invariant
            n == adj@.len(),
            n < i32::MAX,
            (u as int) < n,
            nr == pair_v@.len(),
            nr == nr_exec,
            graph_ok(adj@, nr),
            pair_u@ == pu_in,
            pair_v@ == pv_in,
            pu_in == old(pair_u)@,
            pv_in == old(pair_v)@,
            dist_in == old(dist)@,
            matching_ok(adj@, nr, pu_in, pv_in),
            dist@.len() == n,
            k <= adj@[u as int]@.len(),
            dist@[u as int] == level,
            level == dist_in[u as int],
            dist_in.len() == n,
            forall|x: int| 0 <= x < n ==> -1 <= #[trigger] dist@[x] < n,
            forall|x: int|
                0 <= x < n ==> #[trigger] dist@[x] == dist_in[x] || (dist@[x] == -1 && dist_in[x] >= level + 1),
            d0.len() == n,
            forall|x: int| 0 <= x < n ==> -1 <= #[trigger] d0[x] < n,
            cond == (pv_in == pv0 && level_inv(adj@, pv0, d0, dist_in)),
            cond ==> level_inv(adj@, pv0, d0, dist@),
            cond ==> forall|kk: int| 0 <= kk < k ==> !#[trigger] good_edge(adj@, pv0, d0, u as int, kk),
        decreases adj@[u as int]@.len() - k,
    {
        let v = adj[u][k];
        assert(adj@[u as int]@[k as int] == v);
        assert((v as int) < nr);
        match pair_v[v] {
            Some(u2) => {
                assert((u2 as int) < n);
                let ghost dist_call = dist@;
                if dist[u2] == dist[u] + 1 {
                    let ok2 = dfs_augment(
                        u2,
                        adj,
                        dist,
                        pair_u,
                        pair_v,
                        Ghost(dist_call[u2 as int] as int),
                        Ghost(d0),
                        Ghost(pv0),
                    );
                    if ok2 {
                        let ghost pu_mid = pair_u@;
                        let ghost pv_mid = pair_v@;
                        proof {
                            assert(pu_mid[u as int] == pu_in[u as int]) by {
                                if pu_mid[u as int] != pu_in[u as int] {
                                    assert(dist_call[u as int] >= dist_call[u2 as int]);
                                }
                            }
                        }
                        pair_v.set(v, Some(u));
                        pair_u.set(u, Some(v));
                        proof {
                            assert(edge(adj@, u as int, v as int));
                            assert(pu_in[u2 as int] == Some(v));
                            assert forall|x: int|
                                0 <= x < n && #[trigger] pair_u@[x] != pu_in[x] implies dist_in[x] >= level by {
                                if x != u {
                                    assert(pu_mid[x] != pu_in[x]);
                                    assert(dist_call[x] >= dist_call[u2 as int]);
                                }
                            }
                            assert forall|y: int| 0 <= y < nr && (#[trigger] pair_v@[y]) is Some implies {
                                let x = pair_v@[y]->0 as int;
                                &&& 0 <= x < n
                                &&& (pair_u@[x] == Some(y as usize) || (x == u && pu_in[u as int] == Some(y as usize)))
                            } by {
                                if y != v {
                                    assert(pv_mid[y] is Some);
                                    let x = pv_mid[y]->0 as int;
                                    assert(pu_mid[x] == Some(y as usize) || (x == u2 && pu_in[u2 as int] == Some(y as usize)));
                                    if x == u2 as int {
                                        assert(pu_in[u2 as int] == Some(v));
                                        assert(y as usize != v);
                                        assert(pu_in[u2 as int] != Some(y as usize));
                                    }
                                    assert(pu_mid[x] == Some(y as usize));
                                    if x == u {
                                        assert(pu_in[u as int] == Some(y as usize));
                                    } else {
                                        assert(pair_u@[x] == pu_mid[x]);
                                    }
                                }
                            }
                            assert forall|x: int| 0 <= x < n && x != u && (#[trigger] pair_u@[x]) is Some implies {
                                let y = pair_u@[x]->0 as int;
                                &&& y < nr
                                &&& pair_v@[y] == Some(x as usize)
                                &&& edge(adj@, x, y)
                            } by {
                                let y = pair_u@[x]->0 as int;
                                if x == u2 {
                                } else {
                                    assert(pu_mid[x] is Some);
                                    if y == v {
                                        assert(pv_mid[v as int] == Some(u2));
                                    }
                                }
                            }
                            if pu_in[u as int] is Some {
                                let w = pu_in[u as int]->0 as int;
                                assert(pv_in[w] == Some(u));
                                assert(pu_mid[u as int] is Some);
                                assert(pv_mid[w] == Some(u));
                                assert(w != v);
                            }
                        }
                        return true;
                    }
                }
                proof {
                    if cond {
                        if good_edge(adj@, pv0, d0, u as int, k as int) {
                            assert(pv0[v as int] == Some(u2));
                            assert(good(adj@, pv0, d0, u2 as int));
                            assert(dist_call[u2 as int] == d0[u2 as int]);
                            if d0[u as int] >= 0 {
                                assert(good(adj@, pv0, d0, u as int));
                            }
                            assert(dist_in[u as int] == d0[u as int]);
                            assert(false);
                        }
                    }
                }
            },
            None => {
                pair_v.set(v, Some(u));
                pair_u.set(u, Some(v));
                proof {
                    assert(edge(adj@, u as int, v as int));
                    if pu_in[u as int] is Some {
                        let w = pu_in[u as int]->0 as int;
                        assert(pv_in[w] == Some(u));
                    }
                    assert forall|y: int| 0 <= y < nr && (#[trigger] pair_v@[y]) is Some implies {
                        let x = pair_v@[y]->0 as int;
                        &&& 0 <= x < n
                        &&& (pair_u@[x] == Some(y as usize) || (x == u && pu_in[u as int] == Some(y as usize)))
                    } by {
                        if y != v {
                            assert(pv_in[y] is Some);
                        }
                    }
                    assert forall|x: int| 0 <= x < n && x != u && (#[trigger] pair_u@[x]) is Some implies {
                        let y = pair_u@[x]->0 as int;
                        &&& y < nr
                        &&& pair_v@[y] == Some(x as usize)
                        &&& edge(adj@, x, y)
                    } by {
                        assert(pu_in[x] is Some);
                    }
                }
                return true;
            },
        }
        k += 1;
    }
    dist.set(u, -1);
    proof {
        if cond {
            if d0[u as int] >= 0 {
                assert(!good(adj@, pv0, d0, u as int)) by {
                    if good(adj@, pv0, d0, u as int) {
                        let kk = choose|kk: int|
                            #![trigger adj@[u as int]@[kk]]
                            0 <= kk < adj@[u as int]@.len() && match pv0[adj@[u as int]@[kk] as int] {
                                None => true,
                                Some(u2) => 0 <= u2 < d0.len() && d0[u2 as int] == d0[u as int] + 1 && good(adj@, pv0, d0, u2 as int),
                            };
                        assert(good_edge(adj@, pv0, d0, u as int, kk));
                    }
                }
            }
        }
    }
    false
}


proof fn lemma_good_reaches_free_left(
    adj: Seq<Vec<usize>>,
    pu: Seq<Option<usize>>,
    pv: Seq<Option<usize>>,
    d: Seq<i32>,
    u: int,
)
    requires
        bfs_levels(adj, pu, pv, d),
        d.len() < i32::MAX,
        0 <= u < d.len(),
        d[u] >= 0,
        good(adj, pv, d, u),
    ensures
        exists|x: int| 0 <= x < d.len() && pu[x] is None && #[trigger] good(adj, pv, d, x),
    decreases d[u],
{
    if d[u] == 0 {
        assert(pu[u] is None);
    } else {
        let (p, k) = choose|p: int, k: int|
            #![trigger adj[p]@[k], d[p]]
            0 <= p < d.len() && 0 <= k < adj[p]@.len() && d[p] == d[u] - 1 && pv[adj[p]@[k] as int]
                == Some(u as usize);
        let u2 = u as usize;
        assert(u2 as int == u);
        assert(pv[adj[p]@[k] as int] == Some(u2));
        assert(good(adj, pv, d, u2 as int));
        assert(good_edge(adj, pv, d, p, k));
        assert(good(adj, pv, d, p));
        lemma_good_reaches_free_left(adj, pu, pv, d, p);
    }
}

proof fn lemma_matched_set_finite(pu: Seq<Option<usize>>)
    ensures
        matched_set(pu).finite(),
        matched_set(pu).len() <= pu.len(),
{
    vstd::set_lib::lemma_int_range(0, pu.len() as int);
    vstd::set_lib::lemma_len_subset(matched_set(pu), vstd::set_lib::set_int_range(0, pu.len() as int));
}

fn hopcroft_karp(
    n_left: usize,
    n_right: usize,
    adj: &Vec<Vec<usize>>,
) -> (res: (usize, Vec<Option<usize>>, Vec<Option<usize>>))
    requires
        n_left == adj@.len(),
        n_left < i32::MAX,
        graph_ok(adj@, n_right as int),
    ensures
        matching_ok(adj@, n_right as int, res.1@, res.2@),
        res.0 as int == matched_set(res.1@).len(),
        exists|r: Set<int>| alt_closed(adj@, res.1@, res.2@, r),
{
    let mut pair_u: Vec<Option<usize>> = Vec::new();
    let mut dist: Vec<i32> = Vec::new();
    let mut i: usize = 0;
    while i < n_left
        invariant
            i <= n_left,
            pair_u@.len() == i,
            dist@.len() == i,
            forall|x: int| 0 <= x < i ==> (#[trigger] pair_u@[x]) is None,
        decreases n_left - i,
    {
        pair_u.push(None);
        dist.push(0);
        i += 1;
    }
    let mut pair_v: Vec<Option<usize>> = Vec::new();
    let mut j: usize = 0;
    while j < n_right
        invariant
            j <= n_right,
            pair_v@.len() == j,
            forall|x: int| 0 <= x < j ==> (#[trigger] pair_v@[x]) is None,
        decreases n_right - j,
    {
        pair_v.push(None);
        j += 1;
    }
    let mut matching: usize = 0;
    proof {
        assert(matched_set(pair_u@) =~= Set::empty());
    }
    loop
        invariant_except_break
            n_left == adj@.len(),
            n_left < i32::MAX,
            graph_ok(adj@, n_right as int),
            matching_ok(adj@, n_right as int, pair_u@, pair_v@),
            matching as int == matched_set(pair_u@).len(),
            dist@.len() == n_left,
        ensures
            matching_ok(adj@, n_right as int, pair_u@, pair_v@),
            matching as int == matched_set(pair_u@).len(),
            exists|r: Set<int>| alt_closed(adj@, pair_u@, pair_v@, r),
        decreases n_left - matching,
    {
        proof {
            lemma_matched_set_finite(pair_u@);
        }
        let found = bfs_layering(n_left, adj, &pair_u, &pair_v, &mut dist);
        if !found {
            assert(alt_closed(adj@, pair_u@, pair_v@, reached(dist@)));
            break;
        }
        let ghost d0 = dist@;
        let ghost pv0 = pair_v@;
        let ghost pu0 = pair_u@;
        let ghost m0 = matching as int;
        let ghost ustar: int = 0;
        proof {
            let w = choose|w: int|
                0 <= w < n_left && dist@[w] >= 0 && #[trigger] free_cube_near(adj@, pair_v@, w);
            let k = choose|k: int| 0 <= k < adj@[w]@.len() && pair_v@[#[trigger] adj@[w]@[k] as int] is None;
            assert(good_edge(adj@, pv0, d0, w, k));
            assert(good(adj@, pv0, d0, w));
            lemma_good_reaches_free_left(adj@, pu0, pv0, d0, w);
            ustar = choose|x: int| 0 <= x < d0.len() && pu0[x] is None && #[trigger] good(adj@, pv0, d0, x);
            assert forall|x: int| 0 <= x < n_left implies #[trigger] dist@[x] == d0[x] || (dist@[x] == -1
                && !good(adj@, pv0, d0, x)) by {}
        }
        let mut u: usize = 0;
        while u < n_left
            invariant
                n_left == adj@.len(),
                n_left < i32::MAX,
                u <= n_left,
                graph_ok(adj@, n_right as int),
                matching_ok(adj@, n_right as int, pair_u@, pair_v@),
                matching as int == matched_set(pair_u@).len(),
                dist@.len() == n_left,
                forall|x: int| 0 <= x < n_left ==> -1 <= #[trigger] dist@[x] < n_left,
                d0.len() == n_left,
                forall|x: int| 0 <= x < n_left ==> -1 <= #[trigger] d0[x] < n_left,
                0 <= ustar < n_left,
                pu0.len() == n_left,
                pu0[ustar] is None,
                good(adj@, pv0, d0, ustar),
                m0 <= matching,
                matching > m0 || (pair_v@ == pv0 && pair_u@ == pu0 && level_inv(adj@, pv0, d0, dist@) && ustar
                    >= u),
            decreases n_left - u,
        {
            if pair_u[u].is_none() {
                let ghost pu_before = pair_u@;
                let ghost pv_before = pair_v@;
                let ghost lvl = dist@[u as int] as int;
                let ok = dfs_augment(
                    u,
                    adj,
                    &mut dist,
                    &mut pair_u,
                    &mut pair_v,
                    Ghost(lvl),
                    Ghost(d0),
                    Ghost(pv0),
                );
                if ok {
                    proof {
                        let nr = n_right as int;
                        assert(matching_ok(adj@, nr, pair_u@, pair_v@)) by {
                            assert forall|x: int| 0 <= x < pair_u@.len() && (#[trigger] pair_u@[x]) is Some implies {
                                let v = pair_u@[x]->0 as int;
                                &&& v < nr
                                &&& pair_v@[v] == Some(x as usize)
                                &&& edge(adj@, x, v)
                            } by {}
                            assert forall|v: int| 0 <= v < nr && (#[trigger] pair_v@[v]) is Some implies {
                                let x = pair_v@[v]->0 as int;
                                &&& x < pair_u@.len()
                                &&& pair_u@[x] == Some(v as usize)
                            } by {}
                        }
                        assert(matched_set(pair_u@) =~= matched_set(pu_before).insert(u as int));
                        lemma_matched_set_finite(pu_before);
                        lemma_matched_set_finite(pair_u@);
                    }
                    matching += 1;
                }
            }
            u += 1;
        }
        proof {
            lemma_matched_set_finite(pair_u@);
        }
    }
    (matching, pair_u, pair_v)
}


pub open spec fn true_set(b: Seq<bool>) -> Set<int> {
    Set::new(|i: int| 0 <= i < b.len() && b[i])
}

/// `p` is an alternating path of lefts: it starts at a free left, and each
/// later left is matched to a cube that neighbours the left before it.
pub open spec fn alt_path_l(adj: Seq<Vec<usize>>, pu: Seq<Option<usize>>, p: Seq<int>) -> bool {
    &&& p.len() > 0
    &&& forall|i: int| 0 <= i < p.len() ==> 0 <= #[trigger] p[i] < pu.len()
    &&& pu[p[0]] is None
    &&& forall|i: int| 1 <= i < p.len() ==> (#[trigger] pu[p[i]]) is Some && edge(adj, p[i - 1], pu[p[i]]->0 as int)
}

/// Left `u` ends an alternating path from a free left.
pub open spec fn reach_left(adj: Seq<Vec<usize>>, pu: Seq<Option<usize>>, u: int) -> bool {
    exists|p: Seq<int>| #[trigger] alt_path_l(adj, pu, p) && p.last() == u
}

/// Reachability from the unmatched lefts along non-matching edges to cubes
/// and matching edges back to lefts, closed in every direction.
pub open spec fn alt_reach_ok(
    adj: Seq<Vec<usize>>,
    nr: int,
    pu: Seq<Option<usize>>,
    pv: Seq<Option<usize>>,
    rl: Seq<bool>,
    rr: Seq<bool>,
) -> bool {
    &&& rl.len() == adj.len()
    &&& rr.len() == nr
    &&& forall|u: int| 0 <= u < rl.len() && pu[u] is None ==> #[trigger] rl[u]
    &&& forall|u: int, k: int|
        #![trigger rl[u], adj[u]@[k]]
        0 <= u < rl.len() && rl[u] && 0 <= k < adj[u]@.len() ==> rr[adj[u]@[k] as int]
    &&& forall|v: int| 0 <= v < nr && #[trigger] rr[v] ==> pv[v] is Some && rl[pv[v]->0 as int]
    &&& forall|v: int| 0 <= v < nr && #[trigger] rr[v] ==> exists|u: int, k: int|
        #![trigger adj[u]@[k]]
        0 <= u < rl.len() && rl[u] && 0 <= k < adj[u]@.len() && adj[u]@[k] == v
    &&& forall|u: int| 0 <= u < rl.len() && #[trigger] rl[u] && pu[u] is Some ==> rr[pu[u]->0 as int]
}

fn alternating_reachability(
    n_left: usize,
    n_right: usize,
    adj: &Vec<Vec<usize>>,
    pair_u: &Vec<Option<usize>>,
    pair_v: &Vec<Option<usize>>,
    Ghost(r): Ghost<Set<int>>,
) -> (res: (Vec<bool>, Vec<bool>))
    requires
        n_left == adj@.len(),
        graph_ok(adj@, n_right as int),
        matching_ok(adj@, n_right as int, pair_u@, pair_v@),
        alt_closed(adj@, pair_u@, pair_v@, r),
    ensures
        alt_reach_ok(adj@, n_right as int, pair_u@, pair_v@, res.0@, res.1@),
        forall|x: int| 0 <= x < n_left && #[trigger] res.0@[x] ==> reach_left(adj@, pair_u@, x),
{
    let ghost nr = n_right as int;
    let mut reachable_left: Vec<bool> = Vec::new();
    let mut reachable_right: Vec<bool> = Vec::new();
    let mut q: VecDeque<(bool, usize)> = VecDeque::new();
    let mut j: usize = 0;
    while j < n_right
        invariant
            j <= n_right,
            reachable_right@.len() == j,
            forall|x: int| 0 <= x < j ==> !(#[trigger] reachable_right@[x]),
        decreases n_right - j,
    {
        reachable_right.push(false);
        j += 1;
    }
    let mut u: usize = 0;
    while u < n_left
        invariant
            u <= n_left,
            n_left == adj@.len(),
            pair_u@.len() == n_left,
            reachable_left@.len() == u,
            forall|x: int| 0 <= x < u ==> (#[trigger] reachable_left@[x] <==> pair_u@[x] is None),
            forall|x: int| 0 <= x < u && #[trigger] reachable_left@[x] ==> reach_left(adj@, pair_u@, x),
            forall|x: int| 0 <= x < u ==> (#[trigger] reachable_left@[x] <==> q@.contains((true, x as usize))),
            forall|i: int| 0 <= i < q@.len() ==> (#[trigger] q@[i]).0 && (q@[i].1 as int) < u,
            forall|i: int, j: int| 0 <= i < j < q@.len() ==> q@[i] != q@[j],
        decreases n_left - u,
    {
        let ghost q0 = q@;
        if pair_u[u].is_none() {
            reachable_left.push(true);
            q.push_back((true, u));
            proof {
                assert(alt_path_l(adj@, pair_u@, seq![u as int]));
                assert(seq![u as int].last() == u as int);
            }
        } else {
            reachable_left.push(false);
        }
        proof {
            assert forall|x: int| 0 <= x < u + 1 implies (#[trigger] reachable_left@[x] <==> q@.contains((true, x as usize))) by {
                if q@.contains((true, x as usize)) {
                    let i = choose|i: int| 0 <= i < q@.len() && q@[i] == (true, x as usize);
                    if i < q0.len() {
                        assert(q0[i] == (true, x as usize));
                    }
                }
                if x < u && q0.contains((true, x as usize)) {
                    let i = choose|i: int| 0 <= i < q0.len() && q0[i] == (true, x as usize);
                    assert(q@[i] == (true, x as usize));
                }
                if x == u && pair_u@[x] is None {
                    assert(q@[q@.len() - 1] == (true, x as usize));
                }
            }
        }
        u += 1;
    }
    let ghost mut done_l: Set<int> = Set::empty();
    let ghost mut done_r: Set<int> = Set::empty();
    let ghost mut sl: Set<int> = true_set(reachable_left@);
    let ghost mut sr: Set<int> = true_set(reachable_right@);
    proof {
        assert(sr =~= Set::empty());
        vstd::set_lib::lemma_int_range(0, n_left as int);
        vstd::set_lib::lemma_int_range(0, n_right as int);
        vstd::set_lib::lemma_len_subset(sl, vstd::set_lib::set_int_range(0, n_left as int));
        assert forall|i: int| 0 <= i < q@.len() implies sl.contains((#[trigger] q@[i]).1 as int) by {
            let x = q@[i].1 as int;
            assert(q@.contains((true, x as usize)));
        }
        assert forall|x: int| #[trigger] sl.contains(x) implies q@.contains((true, x as usize)) by {}
    }
    loop
        invariant_except_break
            n_left == adj@.len(),
            nr == n_right,
            graph_ok(adj@, nr),
            matching_ok(adj@, nr, pair_u@, pair_v@),
            alt_closed(adj@, pair_u@, pair_v@, r),
            reachable_left@.len() == n_left,
            reachable_right@.len() == n_right,
            sl == true_set(reachable_left@),
            sr == true_set(reachable_right@),
            sl.finite(),
            sr.finite(),
            sl.len() <= n_left,
            sr.len() <= n_right,
            forall|i: int| 0 <= i < q@.len() ==> ((#[trigger] q@[i]).0 ==> (q@[i].1 as int) < n_left && reachable_left@[q@[i].1 as int] && !done_l.contains(q@[i].1 as int)),
            forall|i: int| 0 <= i < q@.len() ==> (!(#[trigger] q@[i]).0 ==> (q@[i].1 as int) < n_right && reachable_right@[q@[i].1 as int] && !done_r.contains(q@[i].1 as int)),
            forall|i: int, j: int| 0 <= i < j < q@.len() ==> q@[i] != q@[j],
            forall|x: int| #[trigger] sl.contains(x) ==> done_l.contains(x) || q@.contains((true, x as usize)),
            forall|x: int| #[trigger] sr.contains(x) ==> done_r.contains(x) || q@.contains((false, x as usize)),
            forall|x: int| #[trigger] done_l.contains(x) ==> sl.contains(x),
            forall|x: int| #[trigger] done_r.contains(x) ==> sr.contains(x),
            forall|x: int, k: int|
                #![trigger done_l.contains(x), adj@[x]@[k]]
                done_l.contains(x) && 0 <= k < adj@[x]@.len() ==> reachable_right@[adj@[x]@[k] as int],
            forall|v: int| #[trigger] done_r.contains(v) ==> pair_v@[v] is Some && reachable_left@[pair_v@[v]->0 as int],
            forall|x: int| 0 <= x < n_left && pair_u@[x] is None ==> #[trigger] reachable_left@[x],
            forall|x: int| 0 <= x < n_left && #[trigger] reachable_left@[x] ==> r.contains(x),
            forall|v: int| 0 <= v < nr && #[trigger] reachable_right@[v] ==> pair_v@[v] is Some && r.contains(pair_v@[v]->0 as int),
            forall|v: int| 0 <= v < nr && #[trigger] reachable_right@[v] ==> exists|x: int, k: int|
                #![trigger adj@[x]@[k]]
                0 <= x < n_left && reachable_left@[x] && 0 <= k < adj@[x]@.len() && adj@[x]@[k] == v,
            forall|x: int| 0 <= x < n_left && #[trigger] reachable_left@[x] && pair_u@[x] is Some ==> reachable_right@[pair_u@[x]->0 as int],
            forall|x: int| 0 <= x < n_left && #[trigger] reachable_left@[x] ==> reach_left(adj@, pair_u@, x),
        ensures
            alt_reach_ok(adj@, nr, pair_u@, pair_v@, reachable_left@, reachable_right@),
            forall|x: int| 0 <= x < n_left && #[trigger] reachable_left@[x] ==> reach_left(adj@, pair_u@, x),
        decreases 2 * (n_left - sl.len()) + 2 * (n_right - sr.len()) + q@.len(),
    {
        let ghost old_q = q@;
        let ghost sl0 = sl;
        let ghost sr0 = sr;
        let item = q.pop_front();
        match item {
            None => {
                proof {
                    assert forall|x: int, k: int|
                        #![trigger reachable_left@[x], adj@[x]@[k]]
                        0 <= x < reachable_left@.len() && reachable_left@[x] && 0 <= k < adj@[x]@.len() implies reachable_right@[adj@[x]@[k] as int] by {
                        assert(sl.contains(x));
                    }
                    assert forall|v: int| 0 <= v < nr && #[trigger] reachable_right@[v] implies pair_v@[v] is Some && reachable_left@[pair_v@[v]->0 as int] by {
                        assert(sr.contains(v));
                    }
                }
                break;
            },
            Some((is_left, idx)) => {
                proof {
                    assert forall|i: int| 0 <= i < q@.len() implies old_q[i + 1] == #[trigger] q@[i] by {}
                    assert(old_q[0] == (is_left, idx));
                    assert forall|x: int| #[trigger] sl.contains(x) implies done_l.contains(x) || q@.contains((true, x as usize)) || (is_left && x == idx) by {
                        if !done_l.contains(x) && !(is_left && x == idx) {
                            assert(old_q.contains((true, x as usize)));
                            let i = choose|i: int| 0 <= i < old_q.len() && old_q[i] == (true, x as usize);
                            assert(i != 0);
                            assert(q@[i - 1] == (true, x as usize));
                        }
                    }
                    assert forall|x: int| #[trigger] sr.contains(x) implies done_r.contains(x) || q@.contains((false, x as usize)) || (!is_left && x == idx) by {
                        if !done_r.contains(x) && !(!is_left && x == idx) {
                            assert(old_q.contains((false, x as usize)));
                            let i = choose|i: int| 0 <= i < old_q.len() && old_q[i] == (false, x as usize);
                            assert(i != 0);
                            assert(q@[i - 1] == (false, x as usize));
                        }
                    }
                }
                if is_left {
                    let ghost done_l_new = done_l.insert(idx as int);
                    let mut k: usize = 0;
                    while k < adj[idx].len()
                        invariant
                            n_left == adj@.len(),
                            nr == n_right,
                            (idx as int) < n_left,
                            reachable_left@[idx as int],
                            !done_l.contains(idx as int),
                            done_l_new == done_l.insert(idx as int),
                            k <= adj@[idx as int]@.len(),
                            graph_ok(adj@, nr),
                            matching_ok(adj@, nr, pair_u@, pair_v@),
                            alt_closed(adj@, pair_u@, pair_v@, r),
                            reachable_left@.len() == n_left,
                            reachable_right@.len() == n_right,
                            sl == true_set(reachable_left@),
                            sr == true_set(reachable_right@),
                            sl.finite(),
                            sr.finite(),
                            sl.len() <= n_left,
                            sr.len() <= n_right,
                            forall|i: int| 0 <= i < q@.len() ==> ((#[trigger] q@[i]).0 ==> (q@[i].1 as int) < n_left && reachable_left@[q@[i].1 as int] && !done_l_new.contains(q@[i].1 as int)),
                            forall|i: int| 0 <= i < q@.len() ==> (!(#[trigger] q@[i]).0 ==> (q@[i].1 as int) < n_right && reachable_right@[q@[i].1 as int] && !done_r.contains(q@[i].1 as int)),
                            forall|i: int, j: int| 0 <= i < j < q@.len() ==> q@[i] != q@[j],
                            forall|x: int| #[trigger] sl.contains(x) ==> done_l_new.contains(x) || q@.contains((true, x as usize)),
                            forall|x: int| #[trigger] sr.contains(x) ==> done_r.contains(x) || q@.contains((false, x as usize)),
                            forall|x: int| #[trigger] done_l_new.contains(x) ==> sl.contains(x),
                            forall|x: int| #[trigger] done_r.contains(x) ==> sr.contains(x),
                            forall|x: int, kk: int|
                                #![trigger done_l_new.contains(x), adj@[x]@[kk]]
                                done_l_new.contains(x) && 0 <= kk < adj@[x]@.len() && (x != idx || kk < k) ==> reachable_right@[adj@[x]@[kk] as int],
                            forall|v: int| #[trigger] done_r.contains(v) ==> pair_v@[v] is Some && reachable_left@[pair_v@[v]->0 as int],
                            forall|x: int| 0 <= x < n_left && pair_u@[x] is None ==> #[trigger] reachable_left@[x],
                            forall|x: int| 0 <= x < n_left && #[trigger] reachable_left@[x] ==> r.contains(x),
                            forall|v: int| 0 <= v < nr && #[trigger] reachable_right@[v] ==> pair_v@[v] is Some && r.contains(pair_v@[v]->0 as int),
                            forall|v: int| 0 <= v < nr && #[trigger] reachable_right@[v] ==> exists|x: int, kk: int|
                                #![trigger adj@[x]@[kk]]
                                0 <= x < n_left && reachable_left@[x] && 0 <= kk < adj@[x]@.len() && adj@[x]@[kk] == v,
                            forall|x: int| 0 <= x < n_left && #[trigger] reachable_left@[x] && pair_u@[x] is Some ==> reachable_right@[pair_u@[x]->0 as int],
                            forall|x: int| 0 <= x < n_left && #[trigger] reachable_left@[x] ==> reach_left(adj@, pair_u@, x),
                            2 * (n_left - sl.len()) + 2 * (n_right - sr.len()) + q@.len() < 2 * (n_left - sl0.len()) + 2 * (n_right - sr0.len()) + old_q.len(),
                        decreases adj@[idx as int]@.len() - k,
                    {
                        let v = adj[idx][k];
                        assert(adj@[idx as int]@[k as int] == v);
                        let matched_to_idx = match pair_v[v] {
                            Some(x) => x == idx,
                            None => false,
                        };
                        if !matched_to_idx && !reachable_right[v] {
                            let ghost q1 = q@;
                            let ghost rr1 = reachable_right@;
                            reachable_right.set(v, true);
                            q.push_back((false, v));
                            proof {
                                assert(r.contains(idx as int));
                                assert(sr.insert(v as int) =~= true_set(reachable_right@));
                                sr = true_set(reachable_right@);
                                vstd::set_lib::lemma_int_range(0, n_right as int);
                                vstd::set_lib::lemma_len_subset(sr, vstd::set_lib::set_int_range(0, n_right as int));
                                assert forall|x: int| #[trigger] sr.contains(x) implies done_r.contains(x) || q@.contains((false, x as usize)) by {
                                    if x == v {
                                        assert(q@[q@.len() - 1] == (false, v));
                                    } else if !done_r.contains(x) {
                                        assert(q1.contains((false, x as usize)));
                                        let i = choose|i: int| 0 <= i < q1.len() && q1[i] == (false, x as usize);
                                        assert(q@[i] == (false, x as usize));
                                    }
                                }
                                assert forall|x: int| #[trigger] sl.contains(x) implies done_l_new.contains(x) || q@.contains((true, x as usize)) by {
                                    if !done_l_new.contains(x) {
                                        assert(q1.contains((true, x as usize)));
                                        let i = choose|i: int| 0 <= i < q1.len() && q1[i] == (true, x as usize);
                                        assert(q@[i] == (true, x as usize));
                                    }
                                }
                                assert forall|vv: int| 0 <= vv < nr && #[trigger] reachable_right@[vv] implies exists|x: int, kk: int|
                                    #![trigger adj@[x]@[kk]]
                                    0 <= x < n_left && reachable_left@[x] && 0 <= kk < adj@[x]@.len() && adj@[x]@[kk] == vv by {
                                    if vv == v {
                                        assert(adj@[idx as int]@[k as int] == v);
                                    } else {
                                        assert(rr1[vv]);
                                    }
                                }
                            }
                        } else {
                            proof {
                                if matched_to_idx {
                                    assert(pair_u@[idx as int] == Some(v));
                                }
                            }
                        }
                        k += 1;
                    }
                    proof {
                        done_l = done_l_new;
                    }
                } else {
                    let ghost done_r_new = done_r.insert(idx as int);
                    match pair_v[idx] {
                        Some(u2) => {
                            if !reachable_left[u2] {
                                let ghost q1 = q@;
                                let ghost rl1 = reachable_left@;
                                reachable_left.set(u2, true);
                                q.push_back((true, u2));
                                proof {
                                    assert(sl.insert(u2 as int) =~= true_set(reachable_left@));
                                    sl = true_set(reachable_left@);
                                    vstd::set_lib::lemma_int_range(0, n_left as int);
                                    vstd::set_lib::lemma_len_subset(sl, vstd::set_lib::set_int_range(0, n_left as int));
                                    assert forall|x: int| #[trigger] sl.contains(x) implies done_l.contains(x) || q@.contains((true, x as usize)) by {
                                        if x == u2 {
                                            assert(q@[q@.len() - 1] == (true, u2));
                                        } else if !done_l.contains(x) {
                                            assert(q1.contains((true, x as usize)));
                                            let i = choose|i: int| 0 <= i < q1.len() && q1[i] == (true, x as usize);
                                            assert(q@[i] == (true, x as usize));
                                        }
                                    }
                                    assert forall|x: int| #[trigger] sr.contains(x) implies done_r_new.contains(x) || q@.contains((false, x as usize)) by {
                                        if !done_r_new.contains(x) {
                                            assert(q1.contains((false, x as usize)));
                                            let i = choose|i: int| 0 <= i < q1.len() && q1[i] == (false, x as usize);
                                            assert(q@[i] == (false, x as usize));
                                        }
                                    }
                                    assert forall|vv: int| 0 <= vv < nr && #[trigger] reachable_right@[vv] implies exists|x: int, kk: int|
                                        #![trigger adj@[x]@[kk]]
                                        0 <= x < n_left && reachable_left@[x] && 0 <= kk < adj@[x]@.len() && adj@[x]@[kk] == vv by {
                                        let (x, kk) = choose|x: int, kk: int|
                                            #![trigger adj@[x]@[kk]]
                                            0 <= x < n_left && rl1[x] && 0 <= kk < adj@[x]@.len() && adj@[x]@[kk] == vv;
                                        assert(reachable_left@[x]);
                                    }
                                    assert(pair_u@[u2 as int] == Some(idx));
                                    assert(reachable_right@[idx as int]);
                                    let (x, kk) = choose|x: int, kk: int|
                                        #![trigger adj@[x]@[kk]]
                                        0 <= x < n_left && rl1[x] && 0 <= kk < adj@[x]@.len() && adj@[x]@[kk] == idx;
                                    assert(reach_left(adj@, pair_u@, x));
                                    let p0 = choose|p0: Seq<int>| #[trigger] alt_path_l(adj@, pair_u@, p0) && p0.last() == x;
                                    let p1 = p0.push(u2 as int);
                                    assert(edge(adj@, x, idx as int));
                                    assert forall|i: int| 1 <= i < p1.len() implies (#[trigger] pair_u@[p1[i]]) is Some && edge(adj@, p1[i - 1], pair_u@[p1[i]]->0 as int) by {
                                        if i < p0.len() {
                                            assert(p1[i] == p0[i] && p1[i - 1] == p0[i - 1]);
                                        } else {
                                            assert(p1[i - 1] == x);
                                        }
                                    }
                                    assert(alt_path_l(adj@, pair_u@, p1));
                                    assert forall|y: int| 0 <= y < n_left && #[trigger] reachable_left@[y] implies reach_left(adj@, pair_u@, y) by {
                                        if y == u2 as int {
                                            assert(alt_path_l(adj@, pair_u@, p1) && p1.last() == y);
                                        } else {
                                            assert(rl1[y]);
                                        }
                                    }
                                }
                            }
                        },
                        None => {},
                    }
                    proof {
                        done_r = done_r_new;
                    }
                }
            },
        }
    }
    (reachable_left, reachable_right)
}


proof fn lemma_reach_counts(
    adj: Seq<Vec<usize>>,
    nr: int,
    pu: Seq<Option<usize>>,
    pv: Seq<Option<usize>>,
    rl: Seq<bool>,
    rr: Seq<bool>,
)
    requires
        matching_ok(adj, nr, pu, pv),
        alt_reach_ok(adj, nr, pu, pv, rl, rr),
        pu.len() < i32::MAX,
    ensures
        true_set(rl).finite(),
        true_set(rr).finite(),
        true_set(rl).len() == true_set(rr).len() + (pu.len() - matched_set(pu).len()),
{
    let n = pu.len() as int;
    let s = true_set(rl);
    let t = true_set(rr);
    let f = Set::new(|u: int| 0 <= u < n && pu[u] is None);
    let sm = Set::new(|u: int| 0 <= u < n && rl[u] && pu[u] is Some);
    let m = matched_set(pu);
    vstd::set_lib::lemma_int_range(0, n);
    vstd::set_lib::lemma_int_range(0, nr);
    let range_l = vstd::set_lib::set_int_range(0, n);
    vstd::set_lib::lemma_len_subset(s, range_l);
    vstd::set_lib::lemma_len_subset(f, range_l);
    vstd::set_lib::lemma_len_subset(sm, range_l);
    vstd::set_lib::lemma_len_subset(m, range_l);
    vstd::set_lib::lemma_len_subset(t, vstd::set_lib::set_int_range(0, nr));
    assert(f + sm =~= s);
    vstd::set_lib::lemma_set_disjoint_lens(f, sm);
    assert(f + m =~= range_l);
    vstd::set_lib::lemma_set_disjoint_lens(f, m);
    let g = |u: int| pu[u]->0 as int;
    assert(vstd::relations::injective_on(g, sm)) by {
        assert forall|a: int, b: int| sm.contains(a) && sm.contains(b) && #[trigger] g(a) == #[trigger] g(b) implies a == b by {
            let v = g(a);
            assert(0 <= a < n && 0 <= b < n);
            assert(pv[v] == Some(a as usize));
            assert(pv[v] == Some(b as usize));
        }
    }
    assert(sm.map(g) =~= t) by {
        assert forall|v: int| t.contains(v) implies #[trigger] sm.map(g).contains(v) by {
            let u2 = pv[v]->0 as int;
            assert(rl[u2]);
            assert(pu[u2] == Some(v as usize));
            assert(sm.contains(u2));
            assert(g(u2) == v);
        }
        assert forall|v: int| #[trigger] sm.map(g).contains(v) implies t.contains(v) by {
            let u = choose|u: int| sm.contains(u) && g(u) == v;
            assert(rr[pu[u]->0 as int]);
        }
    }
    vstd::set_lib::lemma_map_size(sm, t, g);
}

/// Every left on an alternating path is reached.
proof fn lemma_path_reached(
    adj: Seq<Vec<usize>>,
    nr: int,
    pu: Seq<Option<usize>>,
    pv: Seq<Option<usize>>,
    rl: Seq<bool>,
    rr: Seq<bool>,
    p: Seq<int>,
    j: int,
)
    requires
        matching_ok(adj, nr, pu, pv),
        alt_reach_ok(adj, nr, pu, pv, rl, rr),
        alt_path_l(adj, pu, p),
        0 <= j < p.len(),
        pu.len() <= usize::MAX,
    ensures
        rl[p[j]],
    decreases j,
{
    if j == 0 {
        assert(0 <= p[0] < pu.len());
        assert(pu[p[0]] is None);
        assert(rl[p[0]]);
    } else {
        lemma_path_reached(adj, nr, pu, pv, rl, rr, p, j - 1);
        assert(pu[p[j]] is Some && edge(adj, p[j - 1], pu[p[j]]->0 as int));
        let v = pu[p[j]]->0 as int;
        let w = p[j - 1];
        let k = choose|k: int| 0 <= k < adj[w]@.len() && #[trigger] adj[w]@[k] == v;
        assert(0 <= w < rl.len());
        assert(rr[adj[w]@[k] as int]);
        assert(0 <= p[j] < pu.len());
        assert(pv[v] == Some(p[j] as usize));
        assert((p[j] as usize) as int == p[j]);
    }
}

/// The cubes (below `N_CUBES`) whose bit is set in `mask0`, in ascending order.
pub fn cubes_of_letter(mask0: u64) -> (lst: Vec<usize>)
    ensures
        forall|k: int| 0 <= k < lst@.len() ==> (#[trigger] lst@[k] as int) < N_CUBES && has_bit(mask0, lst@[k] as int),
        forall|j: int| 0 <= j < N_CUBES && has_bit(mask0, j) ==> #[trigger] lst@.contains(j as usize),
        forall|k1: int, k2: int| 0 <= k1 < k2 < lst@.len() ==> lst@[k1] < lst@[k2],
{
    let n_right = N_CUBES;
    let mut lst: Vec<usize> = Vec::new();
    let mut m = mask0;
    while m != 0
        invariant
            n_right == N_CUBES,
            forall|j: int| 0 <= j < N_CUBES && has_bit(mask0, j) ==> has_bit(m, j) || #[trigger] lst@.contains(j as usize),
            forall|j: int| #[trigger] has_bit(m, j) ==> has_bit(mask0, j),
            forall|k: int| 0 <= k < lst@.len() ==> (#[trigger] lst@[k] as int) < N_CUBES && has_bit(mask0, lst@[k] as int),
            forall|k: int, j: int| 0 <= k < lst@.len() && #[trigger] has_bit(m, j) ==> (#[trigger] lst@[k] as int) < j,
            forall|k1: int, k2: int| 0 <= k1 < k2 < lst@.len() ==> lst@[k1] < lst@[k2],
        decreases m,
    {
        proof {
            lemma_lowest_bit(m);
        }
        let v = m.trailing_zeros() as usize;
        let ghost lst0 = lst@;
        if v < n_right {
            lst.push(v);
        }
        let ghost m0 = m;
        m = m & (m - 1);
        proof {
            assert forall|j: int| 0 <= j < N_CUBES && has_bit(mask0, j) implies has_bit(m, j) || #[trigger] lst@.contains(j as usize) by {
                if !has_bit(m, j) {
                    if has_bit(m0, j) {
                        assert(j == v as int);
                        assert(lst@[lst@.len() - 1] == v);
                    } else {
                        assert(lst0.contains(j as usize));
                        let k = choose|k: int| 0 <= k < lst0.len() && lst0[k] == j as usize;
                        assert(lst@[k] == j as usize);
                    }
                }
            }
            assert forall|k: int, j: int| 0 <= k < lst@.len() && #[trigger] has_bit(m, j) implies (#[trigger] lst@[k] as int) < j by {
                if k < lst0.len() {
                    assert(has_bit(m0, j));
                } else {
                    assert(has_bit(m0, j) && j != v as int);
                    assert(!(j < v as int));
                }
            }
        }
    }
    proof {
        lemma_zero_no_bits(m);
    }
    lst
}

/// `adj[u]` lists exactly the cubes that carry the letter of instance `u`.
pub open spec fn adj_ok(adj: Seq<Vec<usize>>, letters: Seq<usize>, masks: Seq<u64>) -> bool {
    &&& adj.len() == letters.len()
    &&& forall|u: int, k: int|
        0 <= u < adj.len() && 0 <= k < adj[u]@.len() ==> cube_carries(masks, letters[u], #[trigger] adj[u]@[k] as int)
    &&& forall|u: int, j: int|
        0 <= u < adj.len() && #[trigger] cube_carries(masks, letters[u], j) ==> edge(adj, u, j)
}

/// Compute a Hall-violating certificate for the letters of `word` on the cubes
/// given by `letter_masks` (bit j of `letter_masks[l]` set iff cube j carries
/// letter l; only the `N_CUBES` lowest bits count).  Scalars of `word` outside
/// the alphabet are skipped.  Returns `None` when every letter instance can be
/// given its own cube, and otherwise `Some((certificate, deficit))`: the
/// certificate's letters outnumber the cubes that carry them by `deficit`,
/// which is also how many instances a best placement leaves unplaced.
#[verifier::rlimit(40)]
pub fn hall_certificate_for_word(alpha: &Alphabet, word: &str, letter_masks: &[u64]) -> (r: Option<(String, usize)>)
    requires
        letter_masks@.len() == alpha@.len(),
        word@.len() < i32::MAX,
    ensures
        r is None <==> mask_spellable(word_letters(alpha@, word@), letter_masks@),
        r matches Some((cert, d)) ==> exists|cs: Seq<usize>|
            #[trigger] hall_certificate(word_letters(alpha@, word@), letter_masks@, cs, d as int)
                && reach_certificate(word_letters(alpha@, word@), letter_masks@, cs, d as int)
                && cert@ == symbols_of(alpha@, cs),
{
    let n_right: usize = N_CUBES;
    let ghost masks = letter_masks@;
    let left_letters = letters_of_word(alpha, word);
    let ghost ls = left_letters@;
    proof {
        lemma_word_letters_bounded(alpha@, word@);
    }
    let n_left = left_letters.len();
    if n_left == 0 {
        proof {
            let a = Seq::<int>::empty();
            assert(is_cube_assignment(ls, masks, a));
        }
        return None;
    }
    let mut adj: Vec<Vec<usize>> = Vec::new();
    let mut u: usize = 0;
    while u < n_left
        invariant
            u <= n_left,
            n_left == ls.len(),
            left_letters@ == ls,
            masks == letter_masks@,
            masks.len() == alpha@.len(),
            forall|t: int| 0 <= t < ls.len() ==> (#[trigger] ls[t] as int) < alpha@.len(),
            adj@.len() == u,
            adj_ok(adj@, ls.take(u as int), masks),
        decreases n_left - u,
    {
        let ell = left_letters[u];
        let lst = cubes_of_letter(letter_masks[ell]);
        let ghost adj0 = adj@;
        adj.push(lst);
        proof {
            assert(ls.take(u as int + 1)[u as int] == ell);
            assert forall|x: int, j: int|
                0 <= x < adj@.len() && #[trigger] cube_carries(masks, ls.take(u as int + 1)[x], j) implies edge(adj@, x, j) by {
                if x < u {
                    assert(ls.take(u as int)[x] == ls.take(u as int + 1)[x]);
                    assert(edge(adj0, x, j));
                    let k = choose|k: int| 0 <= k < adj0[x]@.len() && adj0[x]@[k] == j;
                    assert(adj@[x]@[k] == j);
                } else {
                    assert(lst@.contains(j as usize));
                    let k = choose|k: int| 0 <= k < lst@.len() && lst@[k] == j as usize;
                    assert(adj@[x]@[k] == j);
                }
            }
            assert forall|x: int, k: int|
                0 <= x < adj@.len() && 0 <= k < adj@[x]@.len() implies cube_carries(masks, ls.take(u as int + 1)[x], #[trigger] adj@[x]@[k] as int) by {
                if x < u {
                    assert(ls.take(u as int)[x] == ls.take(u as int + 1)[x]);
                    assert(adj@[x] == adj0[x]);
                }
            }
        }
        u += 1;
    }
    proof {
        assert(ls.take(n_left as int) =~= ls);
        assert(graph_ok(adj@, n_right as int));
    }
    let (matching, pair_u, pair_v) = hopcroft_karp(n_left, n_right, &adj);
    proof {
        lemma_matched_set_finite(pair_u@);
    }
    if matching == n_left {
        proof {
            let pu = pair_u@;
            assert forall|x: int| 0 <= x < n_left implies (#[trigger] pu[x]) is Some by {
                if pu[x] is None {
                    let rng = vstd::set_lib::set_int_range(0, n_left as int);
                    vstd::set_lib::lemma_int_range(0, n_left as int);
                    assert(matched_set(pu).subset_of(rng.remove(x)));
                    vstd::set_lib::lemma_len_subset(matched_set(pu), rng.remove(x));
                }
            }
            let a = Seq::new(n_left as nat, |x: int| pu[x]->0 as int);
            assert forall|i: int, j: int| 0 <= i < a.len() && 0 <= j < a.len() && i != j implies a[i] != a[j] by {
                assert(pair_v@[a[i]] == Some(i as usize));
                assert(pair_v@[a[j]] == Some(j as usize));
            }
            assert forall|i: int| 0 <= i < a.len() implies cube_carries(masks, ls[i], #[trigger] a[i]) by {
                assert(edge(adj@, i, a[i]));
                let k = choose|k: int| 0 <= k < adj@[i]@.len() && adj@[i]@[k] == a[i];
                assert(cube_carries(masks, ls[i], adj@[i]@[k] as int));
            }
            assert(is_cube_assignment(ls, masks, a));
        }
        return None;
    }
    let ghost r_closed = choose|r: Set<int>| alt_closed(adj@, pair_u@, pair_v@, r);
    let (reachable_left, reachable_right) = alternating_reachability(
        n_left,
        n_right,
        &adj,
        &pair_u,
        &pair_v,
        Ghost(r_closed),
    );
    let ghost rl = reachable_left@;
    let ghost rr = reachable_right@;
    proof {
        lemma_reach_counts(adj@, n_right as int, pair_u@, pair_v@, rl, rr);
    }
    let mut cert_chars: Vec<char> = Vec::new();
    let ghost mut cs: Seq<usize> = Seq::empty();
    let ghost mut pos: Seq<int> = Seq::empty();
    let mut x: usize = 0;
    proof {
        assert(Set::new(|y: int| 0 <= y < 0 && rl[y]) =~= Set::<int>::empty());
    }
    while x < n_left
        invariant
            x <= n_left,
            n_left == ls.len(),
            left_letters@ == ls,
            reachable_left@ == rl,
            rl.len() == n_left,
            forall|t: int| 0 <= t < ls.len() ==> (#[trigger] ls[t] as int) < alpha@.len(),
            subsequence_at(cs, ls, pos),
            forall|k: int| 0 <= k < pos.len() ==> rl[#[trigger] pos[k]] && pos[k] < x,
            forall|y: int| 0 <= y < x && #[trigger] rl[y] ==> exists|k: int| 0 <= k < pos.len() && pos[k] == y,
            cs.len() == Set::new(|y: int| 0 <= y < x && rl[y]).len(),
            Set::new(|y: int| 0 <= y < x && rl[y]).finite(),
            cert_chars@ == symbols_of(alpha@, cs),
        decreases n_left - x,
    {
        let ghost before = Set::new(|y: int| 0 <= y < x && rl[y]);
        if reachable_left[x] {
            let ell = left_letters[x];
            cert_chars.push(crate::alphabet::index_char(alpha, ell));
            let ghost pos0 = pos;
            proof {
                cs = cs.push(ell);
                pos = pos.push(x as int);
                assert(Set::new(|y: int| 0 <= y < x + 1 && rl[y]) =~= before.insert(x as int));
                assert(cert_chars@ =~= symbols_of(alpha@, cs));
                assert forall|y: int| 0 <= y < x + 1 && #[trigger] rl[y] implies exists|k: int| 0 <= k < pos.len() && pos[k] == y by {
                    if y == x {
                        assert(pos[pos.len() - 1] == y);
                    } else {
                        let k = choose|k: int| 0 <= k < pos0.len() && pos0[k] == y;
                        assert(pos[k] == y);
                    }
                }
            }
        } else {
            proof {
                assert(Set::new(|y: int| 0 <= y < x + 1 && rl[y]) =~= before);
            }
        }
        x += 1;
    }
    if cert_chars.len() == 0 {
        proof {
            assert(matched_set(pair_u@).len() < n_left);
            assert(exists|y: int| 0 <= y < n_left && pair_u@[y] is None) by {
                if forall|y: int| 0 <= y < n_left ==> pair_u@[y] is Some {
                    vstd::set_lib::lemma_int_range(0, n_left as int);
                    assert(matched_set(pair_u@) =~= vstd::set_lib::set_int_range(0, n_left as int));
                }
            }
            let y = choose|y: int| 0 <= y < n_left && pair_u@[y] is None;
            assert(rl[y]);
            let k = choose|k: int| 0 <= k < pos.len() && pos[k] == y;
            assert(false);
        }
        let mut y: usize = 0;
        while y < n_left
            invariant
                y <= n_left,
                pair_u@.len() == n_left,
                left_letters@.len() == n_left,
                forall|t: int| 0 <= t < ls.len() ==> (#[trigger] ls[t] as int) < alpha@.len(),
                left_letters@ == ls,
            decreases n_left - y,
        {
            if pair_u[y].is_none() {
                let ell = left_letters[y];
                cert_chars.push(crate::alphabet::index_char(alpha, ell));
            }
            y += 1;
        }
    }
    let deficit = n_left - matching;
    let cert = crate::text::string_from_chars(&cert_chars);
    proof {
        let s_set = true_set(rl);
        let t_set = true_set(rr);
        assert(Set::new(|y: int| 0 <= y < n_left && rl[y]) =~= s_set);
        assert(neighborhood(masks, cs) =~= t_set) by {
            assert forall|c: int| #[trigger] neighborhood(masks, cs).contains(c) implies t_set.contains(c) by {
                let t = choose|t: int| 0 <= t < cs.len() && cube_carries(masks, cs[t], c);
                let uu = pos[t];
                assert(cube_carries(masks, ls[uu], c));
                assert(edge(adj@, uu, c));
                let k = choose|k: int| 0 <= k < adj@[uu]@.len() && adj@[uu]@[k] == c;
                assert(rl[uu]);
                assert(rr[adj@[uu]@[k] as int]);
            }
            assert forall|c: int| #[trigger] t_set.contains(c) implies neighborhood(masks, cs).contains(c) by {
                let (uu, k) = choose|uu: int, k: int|
                    #![trigger adj@[uu]@[k]]
                    0 <= uu < rl.len() && rl[uu] && 0 <= k < adj@[uu]@.len() && adj@[uu]@[k] == c;
                assert(cube_carries(masks, ls[uu], adj@[uu]@[k] as int));
                let t = choose|t: int| 0 <= t < pos.len() && pos[t] == uu;
                assert(cs[t] == ls[uu]);
            }
        }
        let pa = Seq::new(n_left as nat, |y: int| if pair_u@[y] is Some { pair_u@[y]->0 as int } else { -1 });
        assert(is_partial_assignment(ls, masks, pa)) by {
            assert forall|i: int, j: int| 0 <= i < pa.len() && 0 <= j < pa.len() && i != j && pa[i] >= 0 && pa[j] >= 0 implies pa[i] != pa[j] by {
                assert(pair_v@[pa[i]] == Some(i as usize));
                assert(pair_v@[pa[j]] == Some(j as usize));
            }
            assert forall|i: int| 0 <= i < pa.len() && pa[i] >= 0 implies cube_carries(masks, ls[i], #[trigger] pa[i]) by {
                assert(edge(adj@, i, pa[i]));
                let k = choose|k: int| 0 <= k < adj@[i]@.len() && adj@[i]@[k] == pa[i];
                assert(cube_carries(masks, ls[i], adj@[i]@[k] as int));
            }
        }
        assert(placed(pa) =~= matched_set(pair_u@));
        assert(hall_certificate(ls, masks, cs, deficit as int));
        assert(adj_ok(adj@, ls, masks));
        assert forall|u: int| 0 <= u < ls.len() implies (pos.contains(u) <==> alt_reachable(ls, masks, pa, u)) by {
            if pos.contains(u) {
                let k = choose|k: int| 0 <= k < pos.len() && pos[k] == u;
                assert(rl[pos[k]]);
                assert(reach_left(adj@, pair_u@, u));
                let p = choose|p: Seq<int>| #[trigger] alt_path_l(adj@, pair_u@, p) && p.last() == u;
                assert forall|i: int| 1 <= i < p.len() implies pa[#[trigger] p[i]] >= 0 && cube_carries(masks, ls[p[i - 1]], pa[p[i]]) by {
                    assert(pair_u@[p[i]] is Some && edge(adj@, p[i - 1], pair_u@[p[i]]->0 as int));
                    let w = p[i - 1];
                    let c = pair_u@[p[i]]->0 as int;
                    let k2 = choose|k2: int| 0 <= k2 < adj@[w]@.len() && #[trigger] adj@[w]@[k2] == c;
                    assert(0 <= w < adj@.len());
                    assert(cube_carries(masks, ls[w], adj@[w]@[k2] as int));
                }
                assert(0 <= p[0] < pair_u@.len());
                assert(alt_chain(ls, masks, pa, p));
            }
            if alt_reachable(ls, masks, pa, u) {
                let p = choose|p: Seq<int>| #[trigger] alt_chain(ls, masks, pa, p) && p.last() == u;
                assert forall|i: int| 1 <= i < p.len() implies (#[trigger] pair_u@[p[i]]) is Some && edge(adj@, p[i - 1], pair_u@[p[i]]->0 as int) by {
                    assert(pa[p[i]] >= 0 && cube_carries(masks, ls[p[i - 1]], pa[p[i]]));
                    assert(0 <= p[i - 1] < adj@.len());
                }
                assert(0 <= p[0] < pa.len());
                assert(alt_path_l(adj@, pair_u@, p));
                lemma_path_reached(adj@, n_right as int, pair_u@, pair_v@, rl, rr, p, p.len() - 1);
                assert(rl[u]);
                let k = choose|k: int| 0 <= k < pos.len() && pos[k] == u;
                assert(pos[k] == u);
            }
        }
        assert(reach_certificate(ls, masks, cs, deficit as int));
        assert(!mask_spellable(ls, masks)) by {
            if mask_spellable(ls, masks) {
                let a = choose|a: Seq<int>| is_cube_assignment(ls, masks, a);
                let g = |i: int| a[i];
                assert(vstd::relations::injective_on(g, s_set));
                assert(s_set.map(g).subset_of(t_set)) by {
                    assert forall|c: int| #[trigger] s_set.map(g).contains(c) implies t_set.contains(c) by {
                        let i = choose|i: int| s_set.contains(i) && g(i) == c;
                        assert(cube_carries(masks, ls[i], a[i]));
                        assert(edge(adj@, i, c));
                        let k = choose|k: int| 0 <= k < adj@[i]@.len() && adj@[i]@[k] == c;
                        assert(rr[adj@[i]@[k] as int]);
                    }
                }
                vstd::set_lib::lemma_map_size(s_set, s_set.map(g), g);
                vstd::set_lib::lemma_len_subset(s_set.map(g), t_set);
            }
        }
    }
    proof {
        assert(cert_chars@ == symbols_of(alpha@, cs));
        assert(cert@ == symbols_of(alpha@, cs));
        assert(hall_certificate(word_letters(alpha@, word@), letter_masks@, cs, deficit as int));
        assert(exists|cs2: Seq<usize>|
            #[trigger] hall_certificate(word_letters(alpha@, word@), letter_masks@, cs2, deficit as int)
                && reach_certificate(word_letters(alpha@, word@), letter_masks@, cs2, deficit as int)
                && cert@ == symbols_of(alpha@, cs2));
    }
    let ghost cert_view = cert@;
    let res = Some((cert, deficit));
    proof {
        assert(res.unwrap().0@ == cert_view);
        assert(res.unwrap().1 == deficit);
        assert(exists|cs2: Seq<usize>|
            #[trigger] hall_certificate(word_letters(alpha@, word@), letter_masks@, cs2, res.unwrap().1 as int)
                && reach_certificate(word_letters(alpha@, word@), letter_masks@, cs2, res.unwrap().1 as int)
                && res.unwrap().0@ == symbols_of(alpha@, cs2));
    }
    res
}

} // verus!
