//! The cube assignment under construction: which letters sit on which
//! cube, with caches of letter degrees, letter masks, and how many cubes
//! carry at least one letter of each pair and each triple of letters.

use vstd::prelude::*;
use crate::bits::{has_bit, lemma_bit_or, lemma_bit_single, lemma_bit_clear, lemma_bits_equal};
use crate::types::{N_CUBES, FACES_PER_CUBE, CubeIndex, union_cubes, coverage_for_tuple};
use crate::stats::{
    Stats, splitmix64, splitmix64_spec, pair_fronts, triple_fronts, key_fronts, need2, need3, need_key, key_fronts_wf,
    active_union_target2, active_union_target3, active_union_target_vecs,
};
use crate::pareto::vec_front;
use crate::alphabet::Alphabet;
use crate::stats::{ranked, sort_letters_by_pub};

verus! {

/// Whether cube `i` carries `a`, `b` or `c`.
pub open spec fn carries_any(p: Seq<Vec<bool>>, i: int, a: int, b: int, c: int) -> bool {
    p[i]@[a] || p[i]@[b] || p[i]@[c]
}

/// Number of cubes below `upto` carrying `a`, `b` or `c`.
pub open spec fn cubes_with(p: Seq<Vec<bool>>, a: int, b: int, c: int, upto: int) -> int
    decreases upto,
{
    if upto <= 0 {
        0
    } else {
        cubes_with(p, a, b, c, upto - 1) + if carries_any(p, upto - 1, a, b, c) {
            1int
        } else {
            0int
        }
    }
}

/// The cubes-by-letters table has `N_CUBES` rows of `n` entries.
pub open spec fn table_ok(p: Seq<Vec<bool>>, n: nat) -> bool {
    &&& p.len() == N_CUBES
    &&& forall|i: int| 0 <= i < p.len() ==> (#[trigger] p[i])@.len() == n
}

/// The caches agree with the table: `deg[l]` counts the cubes carrying
/// `l`; bit `j` of `letter_masks[l]` says whether cube `j` carries `l`;
/// `union2[a][t]` (`a != t`) counts the cubes carrying `a` or `t`;
/// `union3[a][b][c]` (`a < b < c`) counts the cubes carrying one of them;
/// all other cache entries are zero.
pub open spec fn caches_ok(b: Built, n: nat) -> bool {
    let p = b.cubes_present@;
    &&& table_ok(p, n)
    &&& b.deg@.len() == n
    &&& b.letter_masks@.len() == n
    &&& b.union2@.len() == n
    &&& b.union3@.len() == n
    &&& forall|a: int| 0 <= a < n ==> (#[trigger] b.union2@[a])@.len() == n
    &&& forall|a: int| 0 <= a < n ==> (#[trigger] b.union3@[a])@.len() == n
    &&& forall|a: int, x: int| 0 <= a < n && 0 <= x < n ==> (#[trigger] b.union3@[a]@[x])@.len() == n
    &&& forall|l: int| 0 <= l < n ==> #[trigger] b.deg@[l] == cubes_with(p, l, l, l, N_CUBES as int)
    &&& forall|l: int, j: int| 0 <= l < n ==> #[trigger] has_bit(b.letter_masks@[l], j) == (0 <= j < N_CUBES && p[j]@[l])
    &&& forall|a: int, t: int|
        0 <= a < n && 0 <= t < n ==> #[trigger] b.union2@[a]@[t] == if a == t {
            0
        } else {
            cubes_with(p, a, t, t, N_CUBES as int)
        }
    &&& forall|a: int, x: int, c: int|
        0 <= a < n && 0 <= x < n && 0 <= c < n ==> #[trigger] b.union3@[a]@[x]@[c] == if a < x < c {
            cubes_with(p, a, x, c, N_CUBES as int)
        } else {
            0
        }
}

/// The assignment being built: for each cube the letters it carries,
/// per-letter degree and cube mask, the pair and triple union counts, and
/// the free faces left on each cube.
#[derive(Clone)]
pub struct Built {
    pub cubes_present: Vec<Vec<bool>>,
    pub deg: Vec<i32>,
    pub letter_masks: Vec<u64>,
    pub union2: Vec<Vec<i32>>,
    pub union3: Vec<Vec<Vec<i32>>>,
    pub cap: Vec<usize>,
}

proof fn lemma_cubes_with_bound(p: Seq<Vec<bool>>, a: int, b: int, c: int, upto: int)
    ensures
        0 <= cubes_with(p, a, b, c, upto) <= if upto < 0 { 0 } else { upto },
    decreases upto,
{
    if upto > 0 {
        lemma_cubes_with_bound(p, a, b, c, upto - 1);
    }
}

proof fn lemma_cubes_with_empty(p: Seq<Vec<bool>>, a: int, b: int, c: int, upto: int)
    requires
        forall|i: int| 0 <= i < upto ==> !#[trigger] carries_any(p, i, a, b, c),
    ensures
        cubes_with(p, a, b, c, upto) == 0,
    decreases upto,
{
    if upto > 0 {
        lemma_cubes_with_empty(p, a, b, c, upto - 1);
    }
}

/// Changing one cell of the table changes a count by the change in
/// whether that cube carries one of the letters.
proof fn lemma_cubes_with_update(p: Seq<Vec<bool>>, q: Seq<Vec<bool>>, i: int, a: int, b: int, c: int, upto: int)
    requires
        p.len() == q.len(),
        0 <= i < p.len(),
        upto <= p.len(),
        forall|k: int| 0 <= k < p.len() && k != i ==> #[trigger] q[k] == p[k],
    ensures
        cubes_with(q, a, b, c, upto) == cubes_with(p, a, b, c, upto) + if 0 <= i < upto {
            (if carries_any(q, i, a, b, c) { 1int } else { 0int }) - (if carries_any(p, i, a, b, c) { 1int } else { 0int })
        } else {
            0int
        },
    decreases upto,
{
    if upto > 0 {
        lemma_cubes_with_update(p, q, i, a, b, c, upto - 1);
        if upto - 1 != i && upto - 1 < p.len() {
            assert(q[upto - 1] == p[upto - 1]);
        }
    }
}

impl Built {
    /// No letter on any cube, every cube with `FACES_PER_CUBE` free faces.
    pub fn new(n: usize) -> (b: Built)
        requires
            n <= 2000,
        ensures
            caches_ok(b, n as nat),
            forall|i: int, l: int| 0 <= i < N_CUBES && 0 <= l < n ==> !(#[trigger] b.cubes_present@[i]@[l]),
            b.cap@.len() == N_CUBES,
            forall|i: int| 0 <= i < N_CUBES ==> #[trigger] b.cap@[i] == FACES_PER_CUBE,
    {
        let mut row: Vec<bool> = Vec::new();
        let mut zeros: Vec<i32> = Vec::new();
        let mut zmask: Vec<u64> = Vec::new();
        let mut j: usize = 0;
        while j < n
            invariant
                j <= n,
                row@.len() == j,
                zeros@.len() == j,
                zmask@.len() == j,
                forall|t: int| 0 <= t < j ==> !#[trigger] row@[t],
                forall|t: int| 0 <= t < j ==> #[trigger] zeros@[t] == 0,
                forall|t: int| 0 <= t < j ==> #[trigger] zmask@[t] == 0,
            decreases n - j,
        {
            row.push(false);
            zeros.push(0);
            zmask.push(0);
            j += 1;
        }
        let mut present: Vec<Vec<bool>> = Vec::new();
        let mut cap: Vec<usize> = Vec::new();
        let mut i: usize = 0;
        while i < N_CUBES
            invariant
                i <= N_CUBES,
                row@.len() == n,
                forall|t: int| 0 <= t < n ==> !#[trigger] row@[t],
                present@.len() == i,
                cap@.len() == i,
                forall|k: int| 0 <= k < i ==> #[trigger] present@[k]@ == row@,
                forall|k: int| 0 <= k < i ==> #[trigger] cap@[k] == FACES_PER_CUBE,
            decreases N_CUBES - i,
        {
            present.push(row.clone());
            cap.push(FACES_PER_CUBE);
            proof {
                assert(present@[i as int]@ == row@);
            }
            i += 1;
        }
        let mut u2: Vec<Vec<i32>> = Vec::new();
        let mut u3: Vec<Vec<Vec<i32>>> = Vec::new();
        let mut a: usize = 0;
        while a < n
            invariant
                a <= n,
                zeros@.len() == n,
                forall|t: int| 0 <= t < n ==> #[trigger] zeros@[t] == 0,
                u2@.len() == a,
                u3@.len() == a,
                forall|k: int| 0 <= k < a ==> #[trigger] u2@[k]@ == zeros@,
                forall|k: int| 0 <= k < a ==> #[trigger] u3@[k]@.len() == n,
                forall|k: int, x: int| 0 <= k < a && 0 <= x < n ==> #[trigger] u3@[k]@[x]@ == zeros@,
            decreases n - a,
        {
            u2.push(zeros.clone());
            let mut plane: Vec<Vec<i32>> = Vec::new();
            let mut x: usize = 0;
            while x < n
                invariant
                    x <= n,
                    zeros@.len() == n,
                    forall|t: int| 0 <= t < n ==> #[trigger] zeros@[t] == 0,
                    plane@.len() == x,
                    forall|k: int| 0 <= k < x ==> #[trigger] plane@[k]@ == zeros@,
                decreases n - x,
            {
                plane.push(zeros.clone());
                x += 1;
            }
            u3.push(plane);
            a += 1;
        }
        let b = Built { cubes_present: present, deg: zeros, letter_masks: zmask, union2: u2, union3: u3, cap };
        proof {
            let p = b.cubes_present@;
            assert forall|l: int, x: int, c: int| 0 <= l < n && 0 <= x < n && 0 <= c < n implies cubes_with(p, l, x, c, N_CUBES as int) == 0 by {
                assert forall|k: int| 0 <= k < N_CUBES implies !#[trigger] carries_any(p, k, l, x, c) by {
                    assert(p[k]@ == row@);
                }
                lemma_cubes_with_empty(p, l, x, c, N_CUBES as int);
            }
            assert forall|l: int, j: int| 0 <= l < n implies #[trigger] has_bit(b.letter_masks@[l], j) == (0 <= j < N_CUBES && p[j]@[l]) by {
                crate::bits::lemma_zero_no_bits(0);
                if 0 <= j < N_CUBES {
                    assert(p[j]@ == row@);
                }
            }
            assert forall|a: int, t: int| 0 <= a < n && 0 <= t < n implies #[trigger] b.union2@[a]@[t] == if a == t {
                0
            } else {
                cubes_with(p, a, t, t, N_CUBES as int)
            } by {
                assert(b.union2@[a]@ == zeros@);
            }
            assert forall|a: int, x: int, c: int| 0 <= a < n && 0 <= x < n && 0 <= c < n implies #[trigger] b.union3@[a]@[x]@[c] == if a < x < c {
                cubes_with(p, a, x, c, N_CUBES as int)
            } else {
                0
            } by {
                assert(b.union3@[a]@[x]@ == zeros@);
            }
        }
        b
    }
}

/// The two letters of a sorted triple other than `l`.
pub open spec fn other2(x: int, y: int, z: int, l: int) -> (int, int) {
    if x == l {
        (y, z)
    } else if y == l {
        (x, z)
    } else {
        (x, y)
    }
}

/// Whether a letter pair / sorted triple involves `l`.
pub open spec fn triple_has(x: int, y: int, z: int, l: int) -> bool {
    x < y < z && (x == l || y == l || z == l)
}

/// The table after putting (`on`) or taking away (`!on`) letter `l` on cube `i`.
pub open spec fn table_set(p: Seq<Vec<bool>>, q: Seq<Vec<bool>>, i: int, l: int, on: bool) -> bool {
    &&& q.len() == p.len()
    &&& forall|k: int| 0 <= k < p.len() && k != i ==> #[trigger] q[k] == p[k]
    &&& q[i]@.len() == p[i]@.len()
    &&& forall|x: int| 0 <= x < p[i]@.len() ==> #[trigger] q[i]@[x] == if x == l { on } else { p[i]@[x] }
}

/// Put letter `l` on cube `cube_i` (nothing happens when it is already
/// there), keeping every cache consistent with the table.
pub fn add_letter(b: &mut Built, cube_i: usize, l: usize)
    requires
        caches_ok(*old(b), old(b).deg@.len()),
        cube_i < N_CUBES,
        l < old(b).deg@.len(),
    ensures
        caches_ok(*final(b), old(b).deg@.len()),
        final(b).cap == old(b).cap,
        old(b).cubes_present@[cube_i as int]@[l as int] ==> final(b).cubes_present@ == old(b).cubes_present@,
        !old(b).cubes_present@[cube_i as int]@[l as int] ==> table_set(old(b).cubes_present@, final(b).cubes_present@, cube_i as int, l as int, true),
{
    let n = b.deg.len();
    let ghost nn = n as nat;
    if b.cubes_present[cube_i][l] {
        return;
    }
    let ghost p0 = b.cubes_present@;
    let ghost d0 = b.deg@;
    let ghost m0 = b.letter_masks@;
    let ghost u20 = b.union2@;
    let ghost u30 = b.union3@;
    let ghost ci = cube_i as int;
    let ghost li = l as int;
    b.cubes_present[cube_i][l] = true;
    let ghost p1 = b.cubes_present@;
    proof {
        assert(table_set(p0, p1, ci, li, true));
        assert forall|a: int, x: int, c: int| 0 <= a < n && 0 <= x < n && 0 <= c < n implies #[trigger] cubes_with(p1, a, x, c, N_CUBES as int)
            == cubes_with(p0, a, x, c, N_CUBES as int) + (if carries_any(p1, ci, a, x, c) { 1int } else { 0int }) - (if carries_any(p0, ci, a, x, c) { 1int } else { 0int }) by {
            lemma_cubes_with_update(p0, p1, ci, a, x, c, N_CUBES as int);
        }
        lemma_cubes_with_bound(p0, li, li, li, N_CUBES as int);
    }
    let dl = b.deg[l];
    b.deg.set(l, dl + 1);
    let ml = b.letter_masks[l];
    let bit: u64 = 1u64 << cube_i;
    b.letter_masks.set(l, ml | bit);
    proof {
        assert forall|x: int, j: int| 0 <= x < n implies #[trigger] has_bit(b.letter_masks@[x], j) == (0 <= j < N_CUBES && p1[j]@[x]) by {
            if x == li {
                lemma_bit_or(ml, bit, j);
                lemma_bit_single(cube_i as u64, j);
            } else {
                assert(b.letter_masks@[x] == m0[x]);
                if 0 <= j < N_CUBES && j != ci {
                    assert(p1[j] == p0[j]);
                }
            }
        }
    }
    proof {
        assert forall|a: int, x: int| 0 <= a < n && 0 <= x < n implies 0 <= #[trigger] u20[a]@[x] <= N_CUBES by {
            lemma_cubes_with_bound(p0, a, x, x, N_CUBES as int);
        }
        assert forall|a: int, x: int, c: int| 0 <= a < n && 0 <= x < n && 0 <= c < n implies 0 <= #[trigger] u30[a]@[x]@[c] <= N_CUBES by {
            lemma_cubes_with_bound(p0, a, x, c, N_CUBES as int);
        }
    }
    let ghost d1 = b.deg@;
    let ghost m1 = b.letter_masks@;
    let mut t: usize = 0;
    while t < n
        invariant
            t <= n,
            n == nn,
            b.deg@ == d1,
            b.letter_masks@ == m1,
            b.union3@ == u30,
            b.cap == old(b).cap,
            ci == cube_i,
            li == l,
            l < n,
            cube_i < N_CUBES,
            b.cubes_present@ == p1,
            table_ok(p1, nn),
            table_set(p0, p1, ci, li, true),
            !p0[ci]@[li],
            b.union2@.len() == n,
            forall|a: int| 0 <= a < n ==> (#[trigger] b.union2@[a])@.len() == n,
            forall|a: int, x: int| 0 <= a < n && 0 <= x < n ==> #[trigger] b.union2@[a]@[x] == u20[a]@[x] + if a != x && (a == li || x == li)
                && (if a == li { x } else { a }) < t && !p0[ci]@[if a == li { x } else { a }] {
                1int
            } else {
                0int
            },
            forall|a: int, x: int| 0 <= a < n && 0 <= x < n ==> 0 <= #[trigger] u20[a]@[x] <= N_CUBES,
        decreases n - t,
    {
        if t != l {
            if !b.cubes_present[cube_i][t] {
                let v1 = b.union2[l][t];
                b.union2[l][t] = v1 + 1;
                let v2 = b.union2[t][l];
                b.union2[t][l] = v2 + 1;
            }
        }
        t += 1;
    }
    let ghost u21 = b.union2@;
    let mut bb: usize = 0;
    while bb < n
        invariant
            bb <= n,
            n == nn,
            b.deg@ == d1,
            b.letter_masks@ == m1,
            b.union2@ == u21,
            b.cap == old(b).cap,
            ci == cube_i,
            li == l,
            l < n,
            cube_i < N_CUBES,
            b.cubes_present@ == p1,
            table_ok(p1, nn),
            table_set(p0, p1, ci, li, true),
            !p0[ci]@[li],
            b.union3@.len() == n,
            forall|a: int| 0 <= a < n ==> (#[trigger] b.union3@[a])@.len() == n,
            forall|a: int, x: int| 0 <= a < n && 0 <= x < n ==> (#[trigger] b.union3@[a]@[x])@.len() == n,
            forall|a: int, x: int, c: int| 0 <= a < n && 0 <= x < n && 0 <= c < n ==> #[trigger] b.union3@[a]@[x]@[c] == u30[a]@[x]@[c] + if triple_has(a, x, c, li)
                && other2(a, x, c, li).0 < bb && !p0[ci]@[other2(a, x, c, li).0] && !p0[ci]@[other2(a, x, c, li).1] {
                1int
            } else {
                0int
            },
            forall|a: int, x: int, c: int| 0 <= a < n && 0 <= x < n && 0 <= c < n ==> 0 <= #[trigger] u30[a]@[x]@[c] <= N_CUBES,
        decreases n - bb,
    {
        if bb != l && !b.cubes_present[cube_i][bb] {
            let mut cc: usize = bb + 1;
            while cc < n
                invariant
                    bb < cc <= n,
                    n == nn,
                    b.deg@ == d1,
                    b.letter_masks@ == m1,
                    b.union2@ == u21,
                    b.cap == old(b).cap,
                    ci == cube_i,
                    li == l,
                    l < n,
                    bb != l,
                    cube_i < N_CUBES,
                    b.cubes_present@ == p1,
                    table_ok(p1, nn),
                    table_set(p0, p1, ci, li, true),
                    !p0[ci]@[li],
                    !p0[ci]@[bb as int],
                    b.union3@.len() == n,
                    forall|a: int| 0 <= a < n ==> (#[trigger] b.union3@[a])@.len() == n,
                    forall|a: int, x: int| 0 <= a < n && 0 <= x < n ==> (#[trigger] b.union3@[a]@[x])@.len() == n,
                    forall|a: int, x: int, c: int| 0 <= a < n && 0 <= x < n && 0 <= c < n ==> #[trigger] b.union3@[a]@[x]@[c] == u30[a]@[x]@[c] + if triple_has(a, x, c, li)
                        && (other2(a, x, c, li).0 < bb || (other2(a, x, c, li).0 == bb && other2(a, x, c, li).1 < cc))
                        && !p0[ci]@[other2(a, x, c, li).0] && !p0[ci]@[other2(a, x, c, li).1] {
                        1int
                    } else {
                        0int
                    },
                    forall|a: int, x: int, c: int| 0 <= a < n && 0 <= x < n && 0 <= c < n ==> 0 <= #[trigger] u30[a]@[x]@[c] <= N_CUBES,
                decreases n - cc,
            {
                if cc != l && !b.cubes_present[cube_i][cc] {
                    let (a1, a2, a3) = crate::types::ord3(l, bb, cc);
                    proof {
                        assert(triple_has(a1 as int, a2 as int, a3 as int, li));
                        assert(other2(a1 as int, a2 as int, a3 as int, li) == (bb as int, cc as int));
                    }
                    let v = b.union3[a1][a2][a3];
                    b.union3[a1][a2][a3] = v + 1;
                }
                cc += 1;
            }
        }
        bb += 1;
    }
    proof {
        let p = b.cubes_present@;
        assert forall|x: int| 0 <= x < n implies #[trigger] b.deg@[x] == cubes_with(p, x, x, x, N_CUBES as int) by {
            assert(cubes_with(p1, x, x, x, N_CUBES as int) == cubes_with(p0, x, x, x, N_CUBES as int) + (if carries_any(p1, ci, x, x, x) { 1int } else { 0int }) - (if carries_any(p0, ci, x, x, x) { 1int } else { 0int }));
        }
        assert forall|a: int, t2: int| 0 <= a < n && 0 <= t2 < n implies #[trigger] b.union2@[a]@[t2] == if a == t2 {
            0
        } else {
            cubes_with(p, a, t2, t2, N_CUBES as int)
        } by {
            assert(cubes_with(p1, a, t2, t2, N_CUBES as int) == cubes_with(p0, a, t2, t2, N_CUBES as int) + (if carries_any(p1, ci, a, t2, t2) { 1int } else { 0int }) - (if carries_any(p0, ci, a, t2, t2) { 1int } else { 0int }));
        }
        assert forall|a: int, x: int, c: int| 0 <= a < n && 0 <= x < n && 0 <= c < n implies #[trigger] b.union3@[a]@[x]@[c] == if a < x < c {
            cubes_with(p, a, x, c, N_CUBES as int)
        } else {
            0
        } by {
            assert(cubes_with(p1, a, x, c, N_CUBES as int) == cubes_with(p0, a, x, c, N_CUBES as int) + (if carries_any(p1, ci, a, x, c) { 1int } else { 0int }) - (if carries_any(p0, ci, a, x, c) { 1int } else { 0int }));
        }
    }
}

/// Take letter `l` off cube `cube_i` (nothing happens when it is not
/// there), keeping every cache consistent with the table.
pub fn remove_letter(b: &mut Built, cube_i: usize, l: usize)
    requires
        caches_ok(*old(b), old(b).deg@.len()),
        cube_i < N_CUBES,
        l < old(b).deg@.len(),
    ensures
        caches_ok(*final(b), old(b).deg@.len()),
        final(b).cap == old(b).cap,
        !old(b).cubes_present@[cube_i as int]@[l as int] ==> final(b).cubes_present@ == old(b).cubes_present@,
        old(b).cubes_present@[cube_i as int]@[l as int] ==> table_set(old(b).cubes_present@, final(b).cubes_present@, cube_i as int, l as int, false),
{
    let n = b.deg.len();
    let ghost nn = n as nat;
    if !b.cubes_present[cube_i][l] {
        return;
    }
    let ghost p0 = b.cubes_present@;
    let ghost d0 = b.deg@;
    let ghost m0 = b.letter_masks@;
    let ghost u20 = b.union2@;
    let ghost u30 = b.union3@;
    let ghost ci = cube_i as int;
    let ghost li = l as int;
    b.cubes_present[cube_i][l] = false;
    let ghost p1 = b.cubes_present@;
    proof {
        assert(table_set(p0, p1, ci, li, false));
        assert forall|a: int, x: int, c: int| 0 <= a < n && 0 <= x < n && 0 <= c < n implies #[trigger] cubes_with(p1, a, x, c, N_CUBES as int)
            == cubes_with(p0, a, x, c, N_CUBES as int) + (if carries_any(p1, ci, a, x, c) { 1int } else { 0int }) - (if carries_any(p0, ci, a, x, c) { 1int } else { 0int }) by {
            lemma_cubes_with_update(p0, p1, ci, a, x, c, N_CUBES as int);
        }
        lemma_cubes_with_bound(p0, li, li, li, N_CUBES as int);
        assert(carries_any(p0, ci, li, li, li));
        assert(d0[li] == cubes_with(p0, li, li, li, N_CUBES as int));
        lemma_cubes_with_bound(p1, li, li, li, N_CUBES as int);
    }
    let dl = b.deg[l];
    b.deg.set(l, dl - 1);
    let ml = b.letter_masks[l];
    let bit: u64 = 1u64 << cube_i;
    b.letter_masks.set(l, ml & !bit);
    proof {
        assert forall|x: int, j: int| 0 <= x < n implies #[trigger] has_bit(b.letter_masks@[x], j) == (0 <= j < N_CUBES && p1[j]@[x]) by {
            if x == li {
                lemma_bit_clear(ml, cube_i as u64, j);
            } else {
                assert(b.letter_masks@[x] == m0[x]);
                if 0 <= j < N_CUBES && j != ci {
                    assert(p1[j] == p0[j]);
                }
            }
        }
    }
    proof {
        assert forall|a: int, x: int| 0 <= a < n && 0 <= x < n implies 0 <= #[trigger] u20[a]@[x] <= N_CUBES by {
            lemma_cubes_with_bound(p0, a, x, x, N_CUBES as int);
        }
        assert forall|a: int, x: int, c: int| 0 <= a < n && 0 <= x < n && 0 <= c < n implies 0 <= #[trigger] u30[a]@[x]@[c] <= N_CUBES by {
            lemma_cubes_with_bound(p0, a, x, c, N_CUBES as int);
        }
    }
    let ghost d1 = b.deg@;
    let ghost m1 = b.letter_masks@;
    let mut t: usize = 0;
    while t < n
        invariant
            t <= n,
            n == nn,
            b.deg@ == d1,
            b.letter_masks@ == m1,
            b.union3@ == u30,
            b.cap == old(b).cap,
            ci == cube_i,
            li == l,
            l < n,
            cube_i < N_CUBES,
            b.cubes_present@ == p1,
            table_ok(p1, nn),
            table_set(p0, p1, ci, li, false),
            p0[ci]@[li],
            b.union2@.len() == n,
            forall|a: int| 0 <= a < n ==> (#[trigger] b.union2@[a])@.len() == n,
            forall|a: int, x: int| 0 <= a < n && 0 <= x < n ==> #[trigger] b.union2@[a]@[x] == u20[a]@[x] - if a != x && (a == li || x == li)
                && (if a == li { x } else { a }) < t && !p0[ci]@[if a == li { x } else { a }] {
                1int
            } else {
                0int
            },
            forall|a: int, x: int| 0 <= a < n && 0 <= x < n ==> 0 <= #[trigger] u20[a]@[x] <= N_CUBES,
        decreases n - t,
    {
        if t != l {
            if !b.cubes_present[cube_i][t] {
                let v1 = b.union2[l][t];
                b.union2[l][t] = v1 - 1;
                let v2 = b.union2[t][l];
                b.union2[t][l] = v2 - 1;
            }
        }
        t += 1;
    }
    let ghost u21 = b.union2@;
    let mut bb: usize = 0;
    while bb < n
        invariant
            bb <= n,
            n == nn,
            b.deg@ == d1,
            b.letter_masks@ == m1,
            b.union2@ == u21,
            b.cap == old(b).cap,
            ci == cube_i,
            li == l,
            l < n,
            cube_i < N_CUBES,
            b.cubes_present@ == p1,
            table_ok(p1, nn),
            table_set(p0, p1, ci, li, false),
            p0[ci]@[li],
            b.union3@.len() == n,
            forall|a: int| 0 <= a < n ==> (#[trigger] b.union3@[a])@.len() == n,
            forall|a: int, x: int| 0 <= a < n && 0 <= x < n ==> (#[trigger] b.union3@[a]@[x])@.len() == n,
            forall|a: int, x: int, c: int| 0 <= a < n && 0 <= x < n && 0 <= c < n ==> #[trigger] b.union3@[a]@[x]@[c] == u30[a]@[x]@[c] - if triple_has(a, x, c, li)
                && other2(a, x, c, li).0 < bb && !p0[ci]@[other2(a, x, c, li).0] && !p0[ci]@[other2(a, x, c, li).1] {
                1int
            } else {
                0int
            },
            forall|a: int, x: int, c: int| 0 <= a < n && 0 <= x < n && 0 <= c < n ==> 0 <= #[trigger] u30[a]@[x]@[c] <= N_CUBES,
        decreases n - bb,
    {
        if bb != l && !b.cubes_present[cube_i][bb] {
            let mut cc: usize = bb + 1;
            while cc < n
                invariant
                    bb < cc <= n,
                    n == nn,
                    b.deg@ == d1,
                    b.letter_masks@ == m1,
                    b.union2@ == u21,
                    b.cap == old(b).cap,
                    ci == cube_i,
                    li == l,
                    l < n,
                    bb != l,
                    cube_i < N_CUBES,
                    b.cubes_present@ == p1,
                    table_ok(p1, nn),
                    table_set(p0, p1, ci, li, false),
                    p0[ci]@[li],
                    !p0[ci]@[bb as int],
                    b.union3@.len() == n,
                    forall|a: int| 0 <= a < n ==> (#[trigger] b.union3@[a])@.len() == n,
                    forall|a: int, x: int| 0 <= a < n && 0 <= x < n ==> (#[trigger] b.union3@[a]@[x])@.len() == n,
                    forall|a: int, x: int, c: int| 0 <= a < n && 0 <= x < n && 0 <= c < n ==> #[trigger] b.union3@[a]@[x]@[c] == u30[a]@[x]@[c] - if triple_has(a, x, c, li)
                        && (other2(a, x, c, li).0 < bb || (other2(a, x, c, li).0 == bb && other2(a, x, c, li).1 < cc))
                        && !p0[ci]@[other2(a, x, c, li).0] && !p0[ci]@[other2(a, x, c, li).1] {
                        1int
                    } else {
                        0int
                    },
                    forall|a: int, x: int, c: int| 0 <= a < n && 0 <= x < n && 0 <= c < n ==> 0 <= #[trigger] u30[a]@[x]@[c] <= N_CUBES,
                decreases n - cc,
            {
                if cc != l && !b.cubes_present[cube_i][cc] {
                    let (a1, a2, a3) = crate::types::ord3(l, bb, cc);
                    proof {
                        assert(triple_has(a1 as int, a2 as int, a3 as int, li));
                        assert(other2(a1 as int, a2 as int, a3 as int, li) == (bb as int, cc as int));
                    }
                    let v = b.union3[a1][a2][a3];
                    b.union3[a1][a2][a3] = v - 1;
                }
                cc += 1;
            }
        }
        bb += 1;
    }
    proof {
        let p = b.cubes_present@;
        assert forall|x: int| 0 <= x < n implies #[trigger] b.deg@[x] == cubes_with(p, x, x, x, N_CUBES as int) by {
            assert(cubes_with(p1, x, x, x, N_CUBES as int) == cubes_with(p0, x, x, x, N_CUBES as int) + (if carries_any(p1, ci, x, x, x) { 1int } else { 0int }) - (if carries_any(p0, ci, x, x, x) { 1int } else { 0int }));
        }
        assert forall|a: int, t2: int| 0 <= a < n && 0 <= t2 < n implies #[trigger] b.union2@[a]@[t2] == if a == t2 {
            0
        } else {
            cubes_with(p, a, t2, t2, N_CUBES as int)
        } by {
            assert(cubes_with(p1, a, t2, t2, N_CUBES as int) == cubes_with(p0, a, t2, t2, N_CUBES as int) + (if carries_any(p1, ci, a, t2, t2) { 1int } else { 0int }) - (if carries_any(p0, ci, a, t2, t2) { 1int } else { 0int }));
        }
        assert forall|a: int, x: int, c: int| 0 <= a < n && 0 <= x < n && 0 <= c < n implies #[trigger] b.union3@[a]@[x]@[c] == if a < x < c {
            cubes_with(p, a, x, c, N_CUBES as int)
        } else {
            0
        } by {
            assert(cubes_with(p1, a, x, c, N_CUBES as int) == cubes_with(p0, a, x, c, N_CUBES as int) + (if carries_any(p1, ci, a, x, c) { 1int } else { 0int }) - (if carries_any(p0, ci, a, x, c) { 1int } else { 0int }));
        }
    }
}

/// Taking away a letter just put on a cube restores the table.
pub proof fn law_add_then_remove(p0: Seq<Vec<bool>>, p1: Seq<Vec<bool>>, p2: Seq<Vec<bool>>, i: int, l: int)
    requires
        0 <= i < p0.len(),
        0 <= l < p0[i]@.len(),
        !p0[i]@[l],
        table_set(p0, p1, i, l, true),
        table_set(p1, p2, i, l, false),
    ensures
        p2.len() == p0.len(),
        forall|k: int| 0 <= k < p0.len() ==> (#[trigger] p2[k])@ == p0[k]@,
{
    assert forall|k: int| 0 <= k < p0.len() implies (#[trigger] p2[k])@ == p0[k]@ by {
        if k == i {
            assert(p2[k]@ =~= p0[k]@);
        }
    }
}

/// Every cache of a consistent state is determined by its table.
proof fn lemma_caches_determined(x: Built, y: Built, n: nat)
    requires
        caches_ok(x, n),
        caches_ok(y, n),
        tview(x.cubes_present@) == tview(y.cubes_present@),
    ensures
        x.deg@ == y.deg@,
        x.letter_masks@ == y.letter_masks@,
        forall|a: int| 0 <= a < n ==> (#[trigger] x.union2@[a])@ == y.union2@[a]@,
        forall|a: int, c: int| 0 <= a < n && 0 <= c < n ==> (#[trigger] x.union3@[a]@[c])@ == y.union3@[a]@[c]@,
{
    let px = x.cubes_present@;
    let py = y.cubes_present@;
    assert forall|i: int| 0 <= i < N_CUBES implies #[trigger] px[i]@ == py[i]@ by {
        assert(tview(px)[i] == tview(py)[i]);
    }
    assert forall|a: int, b: int, c: int| #![trigger cubes_with(px, a, b, c, N_CUBES as int)]
        cubes_with(px, a, b, c, N_CUBES as int) == cubes_with(py, a, b, c, N_CUBES as int) by {
        lemma_tcount(px, a, b, c, N_CUBES as int);
        lemma_tcount(py, a, b, c, N_CUBES as int);
    }
    assert forall|l: int| 0 <= l < n implies #[trigger] x.deg@[l] == y.deg@[l] by {
        assert(cubes_with(px, l, l, l, N_CUBES as int) == cubes_with(py, l, l, l, N_CUBES as int));
    }
    assert(x.deg@ =~= y.deg@);
    assert forall|l: int| 0 <= l < n implies #[trigger] x.letter_masks@[l] == y.letter_masks@[l] by {
        assert forall|j: int| 0 <= j < 64 implies #[trigger] has_bit(x.letter_masks@[l], j) == has_bit(y.letter_masks@[l], j) by {
            if j < N_CUBES {
                assert(px[j]@ == py[j]@);
            }
        }
        lemma_bits_equal(x.letter_masks@[l], y.letter_masks@[l]);
    }
    assert(x.letter_masks@ =~= y.letter_masks@);
    assert forall|a: int| 0 <= a < n implies (#[trigger] x.union2@[a])@ == y.union2@[a]@ by {
        assert forall|c: int| 0 <= c < n implies #[trigger] x.union2@[a]@[c] == y.union2@[a]@[c] by {
            assert(cubes_with(px, a, c, c, N_CUBES as int) == cubes_with(py, a, c, c, N_CUBES as int));
        }
        assert(x.union2@[a]@ =~= y.union2@[a]@);
    }
    assert forall|a: int, c: int| 0 <= a < n && 0 <= c < n implies (#[trigger] x.union3@[a]@[c])@ == y.union3@[a]@[c]@ by {
        assert forall|e: int| 0 <= e < n implies #[trigger] x.union3@[a]@[c]@[e] == y.union3@[a]@[c]@[e] by {
            assert(cubes_with(px, a, c, e, N_CUBES as int) == cubes_with(py, a, c, e, N_CUBES as int));
        }
        assert(x.union3@[a]@[c]@ =~= y.union3@[a]@[c]@);
    }
}

/// Two states agree on the table, every cache and the free faces.
pub open spec fn same_state(x: Built, y: Built) -> bool {
    &&& tview(x.cubes_present@) == tview(y.cubes_present@)
    &&& x.deg@ == y.deg@
    &&& x.letter_masks@ == y.letter_masks@
    &&& x.union2@.len() == y.union2@.len()
    &&& forall|a: int| 0 <= a < x.union2@.len() ==> (#[trigger] x.union2@[a])@ == y.union2@[a]@
    &&& x.union3@.len() == y.union3@.len()
    &&& forall|a: int, c: int| 0 <= a < x.union3@.len() && 0 <= c < x.union3@.len() ==> (#[trigger] x.union3@[a]@[c])@
        == y.union3@[a]@[c]@
    &&& x.cap@ == y.cap@
}

/// Taking away a letter just put on a cube (`b1` is what `add_letter`
/// makes of `b0`, `b2` what `remove_letter` makes of `b1`) restores the
/// whole state: table, every cache and the free faces.
pub proof fn law_add_remove_restores(b0: Built, b1: Built, b2: Built, i: int, l: int)
    requires
        caches_ok(b0, b0.deg@.len()),
        0 <= i < N_CUBES,
        0 <= l < b0.deg@.len(),
        !b0.cubes_present@[i]@[l],
        caches_ok(b1, b0.deg@.len()),
        b1.cap == b0.cap,
        table_set(b0.cubes_present@, b1.cubes_present@, i, l, true),
        caches_ok(b2, b0.deg@.len()),
        b2.cap == b1.cap,
        table_set(b1.cubes_present@, b2.cubes_present@, i, l, false),
    ensures
        same_state(b2, b0),
{
    let n = b0.deg@.len();
    law_add_then_remove(b0.cubes_present@, b1.cubes_present@, b2.cubes_present@, i, l);
    assert(tview(b2.cubes_present@) =~= tview(b0.cubes_present@));
    lemma_caches_determined(b2, b0, n);
}

/// With consistent caches, the pair and triple union counts equal the
/// number of cubes whose letter masks cover the pair or triple.
pub proof fn law_caches_match_masks(b: Built, n: nat, a: int, x: int, c: int)
    requires
        caches_ok(b, n),
        0 <= a < n,
        0 <= x < n,
        0 <= c < n,
    ensures
        a != x ==> b.union2@[a]@[x] == union_cubes(b.letter_masks@, seq![a as usize, x as usize]).len(),
        a < x < c ==> b.union3@[a]@[x]@[c] == union_cubes(b.letter_masks@, seq![a as usize, x as usize, c as usize]).len(),
{
    let p = b.cubes_present@;
    assert(b.deg@.len() == b.deg.len());
    if a != x {
        lemma_count_is_union(b, n, a, x, x, seq![a as usize, x as usize], N_CUBES as int);
        let key = seq![a as usize, x as usize];
        assert(union_cubes(b.letter_masks@, key) =~= union_upto(b, key, N_CUBES as int)) by {
            assert forall|j: int| union_cubes(b.letter_masks@, key).contains(j) implies union_upto(b, key, N_CUBES as int).contains(j) by {
                let t = choose|t: int| 0 <= t < key.len() && #[trigger] has_bit(b.letter_masks@[key[t] as int], j);
                assert((key[t] as int) < n);
            }
        }
    }
    if a < x < c {
        lemma_count_is_union(b, n, a, x, c, seq![a as usize, x as usize, c as usize], N_CUBES as int);
        let key = seq![a as usize, x as usize, c as usize];
        assert(union_cubes(b.letter_masks@, key) =~= union_upto(b, key, N_CUBES as int)) by {
            assert forall|j: int| union_cubes(b.letter_masks@, key).contains(j) implies union_upto(b, key, N_CUBES as int).contains(j) by {
                let t = choose|t: int| 0 <= t < key.len() && #[trigger] has_bit(b.letter_masks@[key[t] as int], j);
                assert((key[t] as int) < n);
            }
        }
    }
}

/// Cubes below `upto` whose masks cover some letter of `key`.
pub open spec fn union_upto(b: Built, key: Seq<usize>, upto: int) -> Set<int> {
    Set::new(|j: int| 0 <= j < upto && exists|t: int| 0 <= t < key.len() && #[trigger] has_bit(b.letter_masks@[key[t] as int], j))
}

proof fn lemma_count_is_union(b: Built, n: nat, a: int, x: int, c: int, key: Seq<usize>, upto: int)
    requires
        caches_ok(b, n),
        0 <= a < n,
        0 <= x < n,
        0 <= c < n,
        0 <= upto <= N_CUBES,
        key.len() >= 2,
        key[0] == a,
        key[1] == x,
        key.len() == 2 ==> x == c,
        key.len() == 3 ==> key[2] == c,
        key.len() <= 3,
    ensures
        union_upto(b, key, upto).finite(),
        cubes_with(b.cubes_present@, a, x, c, upto) == union_upto(b, key, upto).len(),
    decreases upto,
{
    let p = b.cubes_present@;
    if upto == 0 {
        assert(union_upto(b, key, 0) =~= Set::<int>::empty());
    } else {
        lemma_count_is_union(b, n, a, x, c, key, upto - 1);
        let prev = union_upto(b, key, upto - 1);
        let j = upto - 1;
        let hit = exists|t: int| 0 <= t < key.len() && #[trigger] has_bit(b.letter_masks@[key[t] as int], j);
        assert(hit == carries_any(p, j, a, x, c)) by {
            if hit {
                let t = choose|t: int| 0 <= t < key.len() && #[trigger] has_bit(b.letter_masks@[key[t] as int], j);
                if key.len() == 2 {
                    assert(t == 0 || t == 1);
                } else {
                    assert(t == 0 || t == 1 || t == 2);
                }
            }
            if carries_any(p, j, a, x, c) {
                if p[j]@[a] {
                    assert(has_bit(b.letter_masks@[key[0] as int], j));
                } else if p[j]@[x] {
                    assert(has_bit(b.letter_masks@[key[1] as int], j));
                } else {
                    if key.len() == 3 {
                        assert(has_bit(b.letter_masks@[key[2] as int], j));
                    } else {
                        assert(has_bit(b.letter_masks@[key[1] as int], j));
                    }
                }
            }
        }
        if hit {
            assert(union_upto(b, key, upto) =~= prev.insert(j));
        } else {
            assert(union_upto(b, key, upto) =~= prev);
        }
    }
}

/* ------------------------------------------------------------------ */
/* Fingerprints and seeded weights                                     */
/* ------------------------------------------------------------------ */

/// FNV-style fingerprint of the first `i` masks.
pub open spec fn fingerprint_spec(m: Seq<u64>, i: int) -> u64
    decreases i,
{
    if i <= 0 {
        0xcbf2_9ce4_8422_2325u64
    } else {
        let h = fingerprint_spec(m, i - 1).wrapping_mul(1099511628211u64);
        h ^ m[i - 1].wrapping_mul(1469598103934665603u64 ^ ((i * 1099511628211) as u64))
    }
}

/// A small stable fingerprint of a list of letter masks.
pub fn fingerprint_masks(m: &[u64]) -> (h: u64)
    requires
        m@.len() <= 16_777_215,
    ensures
        h == fingerprint_spec(m@, m@.len() as int),
{
    let mut h: u64 = 0xcbf2_9ce4_8422_2325;
    let mut i: usize = 0;
    while i < m.len()
        invariant
            i <= m@.len(),
            m@.len() <= 16_777_215,
            h == fingerprint_spec(m@, i as int),
        decreases m.len() - i,
    {
        let v = m[i];
        h = h.wrapping_mul(1099511628211);
        assert((i as u64 + 1) * 1099511628211 <= u64::MAX) by (nonlinear_arith)
            requires
                i < 16_777_215,
        ;
        h ^= v.wrapping_mul(1469598103934665603u64 ^ ((i as u64 + 1) * 1099511628211));
        i += 1;
    }
    h
}

/// Seeded weight of a letter set.
pub open spec fn key_weight_spec(seed: u64, key: Seq<usize>) -> u64
    decreases key.len(),
{
    if key.len() == 0 {
        splitmix64_spec(seed ^ 0xA24B_AED4_963E_E407u64)
    } else {
        splitmix64_spec(key_weight_spec(seed, key.drop_last()) ^ (key.last() as u64).wrapping_mul(0x9E37_79B9_7F4A_7C15u64))
    }
}

/// Deterministic pseudo-random weight of a letter set for a seed.
pub fn key_weight(seed: u64, key: &Vec<usize>) -> (h: u64)
    ensures
        h == key_weight_spec(seed, key@),
{
    let mut h = splitmix64(seed ^ 0xA24B_AED4_963E_E407);
    let mut i: usize = 0;
    while i < key.len()
        invariant
            i <= key@.len(),
            h == key_weight_spec(seed, key@.take(i as int)),
        decreases key.len() - i,
    {
        assert(key@.take(i + 1).drop_last() =~= key@.take(i as int));
        h = splitmix64(h ^ (key[i] as u64).wrapping_mul(0x9E37_79B9_7F4A_7C15));
        i += 1;
    }
    assert(key@.take(key@.len() as int) =~= key@);
    h
}

/// Seeded jitter of a letter.
pub fn letter_jitter(seed: u64, l: usize) -> (r: u64)
    ensures
        r == splitmix64_spec(seed ^ (l as u64).wrapping_mul(0x9E37_79B9_7F4A_7C15u64)),
{
    splitmix64(seed ^ (l as u64).wrapping_mul(0x9E37_79B9_7F4A_7C15))
}

/// Seeded weight of a letter pair.
pub open spec fn pair_weight_spec(seed: u64, a: usize, b: usize) -> u64 {
    let h0 = splitmix64_spec(seed ^ 0xD2B7_4407_B1CE_6E93u64);
    let h1 = splitmix64_spec(h0 ^ (a as u64).wrapping_mul(0x9E37_79B9_7F4A_7C15u64));
    splitmix64_spec(h1 ^ (b as u64).wrapping_mul(0xBF58_476D_1CE4_E5B9u64))
}

pub fn pair_weight(seed: u64, a: usize, b: usize) -> (h: u64)
    ensures
        h == pair_weight_spec(seed, a, b),
{
    let mut h = splitmix64(seed ^ 0xD2B7_4407_B1CE_6E93);
    h = splitmix64(h ^ (a as u64).wrapping_mul(0x9E37_79B9_7F4A_7C15));
    h = splitmix64(h ^ (b as u64).wrapping_mul(0xBF58_476D_1CE4_E5B9));
    h
}

/// Seeded weight of a letter triple.
pub open spec fn triple_weight_spec(seed: u64, a: usize, b: usize, c: usize) -> u64 {
    let h0 = splitmix64_spec(seed ^ 0x94D0_49BB_1331_11EBu64);
    let h1 = splitmix64_spec(h0 ^ (a as u64).wrapping_mul(0x9E37_79B9_7F4A_7C15u64));
    let h2 = splitmix64_spec(h1 ^ (b as u64).wrapping_mul(0xBF58_476D_1CE4_E5B9u64));
    splitmix64_spec(h2 ^ (c as u64).wrapping_mul(0x94D0_49BB_1331_11EBu64))
}

pub fn triple_weight(seed: u64, a: usize, b: usize, c: usize) -> (h: u64)
    ensures
        h == triple_weight_spec(seed, a, b, c),
{
    let mut h = splitmix64(seed ^ 0x94D0_49BB_1331_11EB);
    h = splitmix64(h ^ (a as u64).wrapping_mul(0x9E37_79B9_7F4A_7C15));
    h = splitmix64(h ^ (b as u64).wrapping_mul(0xBF58_476D_1CE4_E5B9));
    h = splitmix64(h ^ (c as u64).wrapping_mul(0x94D0_49BB_1331_11EB));
    h
}

/* ------------------------------------------------------------------ */
/* Deficits                                                             */
/* ------------------------------------------------------------------ */

/// Sum of `f` over the elements of `ks`.
pub open spec fn sum_over<K>(ks: Seq<K>, f: spec_fn(K) -> int) -> int
    decreases ks.len(),
{
    if ks.len() == 0 {
        0
    } else {
        sum_over(ks.drop_last(), f) + f(ks.last())
    }
}

/// `ks` lists each element of `d` exactly once.
pub open spec fn enumerates<K>(ks: Seq<K>, d: Set<K>) -> bool {
    ks.no_duplicates() && ks.to_set() == d
}

/// Total shortfall of the degrees below the per-letter maxima.
pub open spec fn singles_deficit(r1: Seq<i32>, deg: Seq<i32>, upto: int) -> int
    decreases upto,
{
    if upto <= 0 {
        0
    } else {
        singles_deficit(r1, deg, upto - 1) + crate::types::max_int(r1[upto - 1] - deg[upto - 1], 0)
    }
}

/// Every stored pair is an ordered pair of letters below `n`.
pub open spec fn pairs_in_range(m: Map<(usize, usize), Seq<[u8; 2]>>, n: nat) -> bool {
    forall|p: (usize, usize)| #[trigger] m.contains_key(p) ==> p.0 < p.1 < n
}

/// Every stored triple is an ordered triple of letters below `n`.
pub open spec fn triples_in_range(m: Map<(usize, usize, usize), Seq<[u8; 3]>>, n: nat) -> bool {
    forall|t: (usize, usize, usize)| #[trigger] m.contains_key(t) ==> t.0 < t.1 < t.2 < n
}

/// Every stored key lists letters below `n`, at most `n` of them.
pub open spec fn keys_in_range(m: Map<Seq<usize>, Seq<Seq<u8>>>, n: nat) -> bool {
    forall|k: Seq<usize>| #[trigger] m.contains_key(k) ==> k.len() <= n && forall|j: int| 0 <= j < k.len() ==> (#[trigger] k[j] as int) < n
}

/// How far the union count of a pair falls short of its need.
pub open spec fn pair_gap(s: Stats, b: Built) -> spec_fn((usize, usize)) -> int {
    |p: (usize, usize)| crate::types::max_int(need2(pair_fronts(s.r2v), p.0, p.1, b.deg@) - b.union2@[p.0 as int]@[p.1 as int], 0)
}

/// How far the union count of a triple falls short of its need.
pub open spec fn triple_gap(s: Stats, b: Built) -> spec_fn((usize, usize, usize)) -> int {
    |t: (usize, usize, usize)| crate::types::max_int(
        need3(triple_fronts(s.r3v), t.0, t.1, t.2, b.deg@) - b.union3@[t.0 as int]@[t.1 as int]@[t.2 as int],
        0,
    )
}

/// How far the cubes covering a key of four or more letters fall short of
/// its need (0 for shorter keys and keys with no need).
pub open spec fn key_gap(s: Stats, b: Built) -> spec_fn(Seq<usize>) -> int {
    |k: Seq<usize>| {
        let need = need_key(key_fronts(s.rhv)[k], k, b.deg@);
        if k.len() < 4 || need == 0 {
            0
        } else {
            crate::types::max_int(need - union_cubes(b.letter_masks@, k).len(), 0)
        }
    }
}

proof fn lemma_sum_over_bound<K>(ks: Seq<K>, f: spec_fn(K) -> int, hi: int)
    requires
        forall|i: int| 0 <= i < ks.len() ==> 0 <= #[trigger] f(ks[i]) <= hi,
    ensures
        0 <= sum_over(ks, f) <= hi * ks.len(),
    decreases ks.len(),
{
    if ks.len() > 0 {
        let d = ks.drop_last();
        assert forall|i: int| 0 <= i < d.len() implies 0 <= #[trigger] f(d[i]) <= hi by {
            assert(d[i] == ks[i]);
        }
        lemma_sum_over_bound(d, f, hi);
        assert(f(ks.last()) == f(ks[ks.len() - 1]));
        assert(hi * (ks.len() - 1) + hi == hi * ks.len()) by (nonlinear_arith);
    }
}

/// The deficits of the assignment against the statistics: singles (how far
/// degrees fall below the per-letter maxima), pairs and triples (how far
/// union counts fall below their needs), each summed.
pub fn deficits_r1_r2_r3(b: &Built, s: &Stats) -> (r: (i32, i32, i32))
    requires
        caches_ok(*b, b.deg@.len()),
        s.r1@.len() == b.deg@.len(),
        singles_deficit(s.r1@, b.deg@, b.deg@.len() as int) <= i32::MAX,
        forall|l: int| 0 <= l < s.r1@.len() ==> 0 <= #[trigger] s.r1@[l],
        pairs_in_range(pair_fronts(s.r2v), b.deg@.len()),
        triples_in_range(triple_fronts(s.r3v), b.deg@.len()),
        510 * pair_fronts(s.r2v).dom().len() <= i32::MAX,
        765 * triple_fronts(s.r3v).dom().len() <= i32::MAX,
    ensures
        r.0 == singles_deficit(s.r1@, b.deg@, b.deg@.len() as int),
        forall|l: int| 0 <= l < b.deg@.len() ==> r.0 >= s.r1@[l] - #[trigger] b.deg@[l],
        exists|ks: Seq<(usize, usize)>| enumerates(ks, pair_fronts(s.r2v).dom()) && r.1 == sum_over(ks, pair_gap(*s, *b)),
        exists|ks: Seq<(usize, usize, usize)>| enumerates(ks, triple_fronts(s.r3v).dom()) && r.2 == sum_over(ks, triple_gap(*s, *b)),
{
    let n = b.deg.len();
    let ghost nn = n as nat;
    proof {
        assert forall|x: int| 0 <= x < n implies 0 <= #[trigger] b.deg@[x] <= N_CUBES by {
            lemma_cubes_with_bound(b.cubes_present@, x, x, x, N_CUBES as int);
        }
    }
    let mut r1: i32 = 0;
    let mut l: usize = 0;
    while l < n
        invariant
            l <= n,
            n == b.deg@.len(),
            s.r1@.len() == n,
            forall|x: int| 0 <= x < n ==> 0 <= #[trigger] s.r1@[x],
            forall|x: int| 0 <= x < n ==> 0 <= #[trigger] b.deg@[x] <= N_CUBES,
            singles_deficit(s.r1@, b.deg@, n as int) <= i32::MAX,
            r1 == singles_deficit(s.r1@, b.deg@, l as int),
        decreases n - l,
    {
        proof {
            lemma_singles_deficit_mono(s.r1@, b.deg@, l + 1, n as int);
        }
        let d = s.r1[l] - b.deg[l];
        if d > 0 {
            r1 = r1 + d;
        }
        l += 1;
    }
    proof {
        assert forall|l: int| 0 <= l < n implies r1 >= s.r1@[l] - #[trigger] b.deg@[l] by {
            law_singles_deficit_shortfall(s.r1@, b.deg@, n as int, l);
        }
    }
    let ks2 = s.r2v.keys();
    let ghost g2 = pair_gap(*s, *b);
    proof {
        ks2@.unique_seq_to_set();
    }
    let mut r2: i32 = 0;
    let mut i: usize = 0;
    while i < ks2.len()
        invariant
            i <= ks2@.len(),
            n == b.deg@.len(),
            caches_ok(*b, nn),
            nn == n,
            g2 == pair_gap(*s, *b),
            enumerates(ks2@, pair_fronts(s.r2v).dom()),
            510 * ks2@.len() <= i32::MAX,
            pairs_in_range(pair_fronts(s.r2v), nn),
            r2 == sum_over(ks2@.take(i as int), g2),
            0 <= r2 <= 510 * i,
        decreases ks2.len() - i,
    {
        let (a, c) = ks2[i];
        proof {
            assert(ks2@.to_set().contains(ks2@[i as int]));
            assert(ks2@.take(i + 1).drop_last() =~= ks2@.take(i as int));
            crate::stats::lemma_need2_bound(pair_fronts(s.r2v), a, c, b.deg@);
        }
        proof {
            assert(pair_fronts(s.r2v).contains_key((a, c)));
            assert(a < c);
            lemma_cubes_with_bound(b.cubes_present@, a as int, c as int, c as int, N_CUBES as int);
            assert(b.union2@[a as int]@[c as int] == cubes_with(b.cubes_present@, a as int, c as int, c as int, N_CUBES as int));
        }
        let need = active_union_target2(&s.r2v, a, c, b.deg.as_slice());
        let have = b.union2[a][c];
        if need > have {
            r2 = r2 + (need - have);
        }
        i += 1;
    }
    assert(ks2@.take(ks2@.len() as int) =~= ks2@);
    let ks3 = s.r3v.keys();
    let ghost g3 = triple_gap(*s, *b);
    proof {
        ks3@.unique_seq_to_set();
    }
    let mut r3: i32 = 0;
    let mut i: usize = 0;
    while i < ks3.len()
        invariant
            i <= ks3@.len(),
            n == b.deg@.len(),
            caches_ok(*b, nn),
            nn == n,
            g3 == triple_gap(*s, *b),
            enumerates(ks3@, triple_fronts(s.r3v).dom()),
            765 * ks3@.len() <= i32::MAX,
            triples_in_range(triple_fronts(s.r3v), nn),
            r3 == sum_over(ks3@.take(i as int), g3),
            0 <= r3 <= 765 * i,
        decreases ks3.len() - i,
    {
        let (a, x, c) = ks3[i];
        proof {
            assert(ks3@.to_set().contains(ks3@[i as int]));
            assert(ks3@.take(i + 1).drop_last() =~= ks3@.take(i as int));
            crate::stats::lemma_need3_bound(triple_fronts(s.r3v), a, x, c, b.deg@);
        }
        proof {
            assert(triple_fronts(s.r3v).contains_key((a, x, c)));
            assert(a < x < c);
            lemma_cubes_with_bound(b.cubes_present@, a as int, x as int, c as int, N_CUBES as int);
            assert(b.union3@[a as int]@[x as int]@[c as int] == cubes_with(b.cubes_present@, a as int, x as int, c as int, N_CUBES as int));
        }
        let need = active_union_target3(&s.r3v, a, x, c, b.deg.as_slice());
        let have = b.union3[a][x][c];
        if need > have {
            r3 = r3 + (need - have);
        }
        i += 1;
    }
    assert(ks3@.take(ks3@.len() as int) =~= ks3@);
    (r1, r2, r3)
}

proof fn lemma_singles_deficit_nonneg(r1: Seq<i32>, deg: Seq<i32>, n: int)
    ensures
        singles_deficit(r1, deg, n) >= 0,
    decreases n,
{
    if n > 0 {
        lemma_singles_deficit_nonneg(r1, deg, n - 1);
    }
}

/// The singles deficit counts each letter by its whole shortfall below its
/// per-letter maximum: it is at least any one letter's shortfall; one more
/// cube for a letter that is short lowers it by exactly one (and changes
/// nothing for a letter that is not short); and it is zero when no letter
/// is short.
pub proof fn law_singles_deficit_shortfall(r1: Seq<i32>, deg: Seq<i32>, n: int, l: int)
    requires
        0 <= l < n,
        n <= r1.len(),
        n <= deg.len(),
    ensures
        singles_deficit(r1, deg, n) >= r1[l] - deg[l],
        deg[l] < i32::MAX ==> singles_deficit(r1, deg.update(l, (deg[l] + 1) as i32), n)
            == singles_deficit(r1, deg, n) - (if deg[l] < r1[l] { 1int } else { 0int }),
        (forall|k: int| 0 <= k < n ==> deg[k] >= #[trigger] r1[k]) ==> singles_deficit(r1, deg, n) == 0,
    decreases n,
{
    lemma_singles_deficit_nonneg(r1, deg, n - 1);
    if l < n - 1 {
        law_singles_deficit_shortfall(r1, deg, n - 1, l);
    }
    if deg[l] < i32::MAX {
        let d2 = deg.update(l, (deg[l] + 1) as i32);
        lemma_singles_deficit_update(r1, deg, n, l);
    }
    if forall|k: int| 0 <= k < n ==> deg[k] >= #[trigger] r1[k] {
        lemma_singles_deficit_zero(r1, deg, n);
    }
}

proof fn lemma_singles_deficit_update(r1: Seq<i32>, deg: Seq<i32>, n: int, l: int)
    requires
        0 <= l < n,
        n <= r1.len(),
        n <= deg.len(),
        deg[l] < i32::MAX,
    ensures
        singles_deficit(r1, deg.update(l, (deg[l] + 1) as i32), n)
            == singles_deficit(r1, deg, n) - (if deg[l] < r1[l] { 1int } else { 0int }),
    decreases n,
{
    let d2 = deg.update(l, (deg[l] + 1) as i32);
    if l < n - 1 {
        lemma_singles_deficit_update(r1, deg, n - 1, l);
        assert(d2[n - 1] == deg[n - 1]);
    } else {
        lemma_singles_deficit_same(r1, deg, d2, n - 1);
    }
}

proof fn lemma_singles_deficit_same(r1: Seq<i32>, d1: Seq<i32>, d2: Seq<i32>, n: int)
    requires
        n <= d1.len(),
        n <= d2.len(),
        forall|k: int| 0 <= k < n ==> #[trigger] d1[k] == d2[k],
    ensures
        singles_deficit(r1, d1, n) == singles_deficit(r1, d2, n),
    decreases n,
{
    if n > 0 {
        lemma_singles_deficit_same(r1, d1, d2, n - 1);
        assert(d1[n - 1] == d2[n - 1]);
    }
}

proof fn lemma_singles_deficit_zero(r1: Seq<i32>, deg: Seq<i32>, n: int)
    requires
        n <= r1.len(),
        n <= deg.len(),
        forall|k: int| 0 <= k < n ==> deg[k] >= #[trigger] r1[k],
    ensures
        singles_deficit(r1, deg, n) == 0,
    decreases n,
{
    if n > 0 {
        lemma_singles_deficit_zero(r1, deg, n - 1);
        assert(deg[n - 1] >= r1[n - 1]);
    }
}

proof fn lemma_singles_deficit_mono(r1: Seq<i32>, deg: Seq<i32>, a: int, b: int)
    requires
        0 <= a <= b,
        forall|x: int| 0 <= x < b ==> 0 <= #[trigger] r1[x],
        forall|x: int| 0 <= x < b ==> 0 <= #[trigger] deg[x],
    ensures
        0 <= singles_deficit(r1, deg, a) <= singles_deficit(r1, deg, b),
    decreases b,
{
    if b > a {
        lemma_singles_deficit_mono(r1, deg, a, b - 1);
    } else if b > 0 {
        lemma_singles_deficit_mono(r1, deg, a - 1, b - 1);
    }
}

/// A cube index holding only the letter masks of the assignment.
fn mask_index(b: &Built) -> (idx: CubeIndex)
    ensures
        idx.letter_masks@ == b.letter_masks@,
{
    let mut masks: Vec<u64> = Vec::new();
    let mut lists: Vec<Vec<usize>> = Vec::new();
    let mut i: usize = 0;
    while i < b.letter_masks.len()
        invariant
            i <= b.letter_masks@.len(),
            masks@ == b.letter_masks@.take(i as int),
        decreases b.letter_masks.len() - i,
    {
        masks.push(b.letter_masks[i]);
        lists.push(Vec::new());
        i += 1;
        assert(masks@ =~= b.letter_masks@.take(i as int));
    }
    assert(b.letter_masks@.take(b.letter_masks@.len() as int) =~= b.letter_masks@);
    CubeIndex { letter_masks: masks, cube_lists: lists }
}

/// The total high-k deficit: over the keys of four or more letters, how far
/// the cubes covering each key fall short of its need.
pub fn r4plus_deficit_total(b: &Built, s: &Stats) -> (r: i64)
    requires
        b.letter_masks@.len() == b.deg@.len(),
        255 * b.deg@.len() <= i32::MAX,
        key_fronts_wf(key_fronts(s.rhv)),
        keys_in_range(key_fronts(s.rhv), b.deg@.len()),
        i32::MAX * key_fronts(s.rhv).dom().len() <= i64::MAX,
    ensures
        exists|ks: Seq<Seq<usize>>| enumerates(ks, key_fronts(s.rhv).dom()) && r == sum_over(ks, key_gap(*s, *b)),
{
    let idx = mask_index(b);
    let ks = s.rhv.keys();
    let ghost kv = Seq::new(ks@.len(), |t: int| ks@[t]@);
    let ghost g = key_gap(*s, *b);
    let ghost m = key_fronts(s.rhv);
    proof {
        assert(kv.no_duplicates()) by {
            assert forall|a: int, c: int| 0 <= a < kv.len() && 0 <= c < kv.len() && a != c implies kv[a] != kv[c] by {
                assert(ks@[a]@ != ks@[c]@);
            }
        }
        assert(kv.to_set() =~= m.dom()) by {
            assert forall|k: Seq<usize>| kv.to_set().contains(k) <==> m.dom().contains(k) by {
                if kv.to_set().contains(k) {
                    let t = choose|t: int| 0 <= t < kv.len() && kv[t] == k;
                    assert(m.contains_key(ks@[t]@));
                }
                if m.dom().contains(k) {
                    let t = choose|t: int| 0 <= t < ks@.len() && #[trigger] ks@[t]@ == k;
                    assert(kv[t] == k);
                }
            }
        }
        kv.unique_seq_to_set();
    }
    let mut total: i64 = 0;
    let mut i: usize = 0;
    while i < ks.len()
        invariant
            i <= ks@.len(),
            kv == Seq::new(ks@.len(), |t: int| ks@[t]@),
            enumerates(kv, m.dom()),
            i32::MAX * kv.len() <= i64::MAX,
            m == key_fronts(s.rhv),
            g == key_gap(*s, *b),
            idx.letter_masks@ == b.letter_masks@,
            b.letter_masks@.len() == b.deg@.len(),
            255 * b.deg@.len() <= i32::MAX,
            key_fronts_wf(m),
            keys_in_range(m, b.deg@.len()),
            total == sum_over(kv.take(i as int), g),
            0 <= total <= i32::MAX * i,
        decreases ks.len() - i,
    {
        let key = &ks[i];
        let ghost k = key@;
        proof {
            assert(kv[i as int] == k);
            assert(kv.to_set().contains(k));
            assert(kv.take(i + 1).drop_last() =~= kv.take(i as int));
        }
        let mut add: i64 = 0;
        if key.len() >= 4 {
            match s.rhv.get(key) {
                Some(vecs) => {
                    proof {
                        assert forall|t: int| 0 <= t < vecs@.len() implies (#[trigger] vecs@[t]@).len() >= key@.len() by {
                            assert(vec_front(vecs@)[t] == vecs@[t]@);
                        }
                        crate::stats::lemma_need_key_bound(vec_front(vecs@), k, b.deg@);
                    }
                    let need = active_union_target_vecs(vecs.as_slice(), key.as_slice(), b.deg.as_slice());
                    if need != 0 {
                        let have = coverage_for_tuple(&idx, key.as_slice());
                        if need > have {
                            add = (need - have) as i64;
                        }
                    }
                },
                None => {},
            }
        }
        total = total + add;
        i += 1;
    }
    assert(kv.take(kv.len() as int) =~= kv);
    total
}

/// The gap of a key when it has `size` letters, 0 otherwise.
pub open spec fn sized_gap(s: Stats, b: Built, size: usize) -> spec_fn(Seq<usize>) -> int {
    |k: Seq<usize>| if k.len() == size { key_gap(s, b)(k) } else { 0 }
}

/// The high-k deficit of one key size: over the keys of exactly `size`
/// letters (four or more), how far the cubes covering each key fall short
/// of its need.
pub fn sized_deficit_total(b: &Built, s: &Stats, size: usize) -> (r: i64)
    requires
        b.letter_masks@.len() == b.deg@.len(),
        255 * b.deg@.len() <= i32::MAX,
        key_fronts_wf(key_fronts(s.rhv)),
        keys_in_range(key_fronts(s.rhv), b.deg@.len()),
        i32::MAX * key_fronts(s.rhv).dom().len() <= i64::MAX,
    ensures
        exists|ks: Seq<Seq<usize>>| enumerates(ks, key_fronts(s.rhv).dom()) && r == sum_over(ks, sized_gap(*s, *b, size)),
{
    let idx = mask_index(b);
    let ks = s.rhv.keys();
    let ghost kv = Seq::new(ks@.len(), |t: int| ks@[t]@);
    let ghost g = sized_gap(*s, *b, size);
    let ghost m = key_fronts(s.rhv);
    proof {
        assert(kv.no_duplicates()) by {
            assert forall|a: int, c: int| 0 <= a < kv.len() && 0 <= c < kv.len() && a != c implies kv[a] != kv[c] by {
                assert(ks@[a]@ != ks@[c]@);
            }
        }
        assert(kv.to_set() =~= m.dom()) by {
            assert forall|k: Seq<usize>| kv.to_set().contains(k) <==> m.dom().contains(k) by {
                if kv.to_set().contains(k) {
                    let t = choose|t: int| 0 <= t < kv.len() && kv[t] == k;
                    assert(m.contains_key(ks@[t]@));
                }
                if m.dom().contains(k) {
                    let t = choose|t: int| 0 <= t < ks@.len() && #[trigger] ks@[t]@ == k;
                    assert(kv[t] == k);
                }
            }
        }
        kv.unique_seq_to_set();
    }
    let mut total: i64 = 0;
    let mut i: usize = 0;
    while i < ks.len()
        invariant
            i <= ks@.len(),
            kv == Seq::new(ks@.len(), |t: int| ks@[t]@),
            enumerates(kv, m.dom()),
            i32::MAX * kv.len() <= i64::MAX,
            m == key_fronts(s.rhv),
            g == sized_gap(*s, *b, size),
            idx.letter_masks@ == b.letter_masks@,
            b.letter_masks@.len() == b.deg@.len(),
            255 * b.deg@.len() <= i32::MAX,
            key_fronts_wf(m),
            keys_in_range(m, b.deg@.len()),
            total == sum_over(kv.take(i as int), g),
            0 <= total <= i32::MAX * i,
        decreases ks.len() - i,
    {
        let key = &ks[i];
        let ghost k = key@;
        proof {
            assert(kv[i as int] == k);
            assert(kv.to_set().contains(k));
            assert(kv.take(i + 1).drop_last() =~= kv.take(i as int));
        }
        let mut add: i64 = 0;
        if key.len() >= 4 && key.len() == size {
            match s.rhv.get(key) {
                Some(vecs) => {
                    proof {
                        assert forall|t: int| 0 <= t < vecs@.len() implies (#[trigger] vecs@[t]@).len() >= key@.len() by {
                            assert(vec_front(vecs@)[t] == vecs@[t]@);
                        }
                        crate::stats::lemma_need_key_bound(vec_front(vecs@), k, b.deg@);
                    }
                    let need = active_union_target_vecs(vecs.as_slice(), key.as_slice(), b.deg.as_slice());
                    if need != 0 {
                        let have = coverage_for_tuple(&idx, key.as_slice());
                        if need > have {
                            add = (need - have) as i64;
                        }
                    }
                },
                None => {},
            }
        }
        total = total + add;
        i += 1;
    }
    assert(kv.take(kv.len() as int) =~= kv);
    total
}

/// Whether some key of four or more letters has a need that the cubes
/// covering it do not reach.
pub fn any_highk_deficit_exists(b: &Built, s: &Stats) -> (r: bool)
    requires
        b.letter_masks@.len() == b.deg@.len(),
        255 * b.deg@.len() <= i32::MAX,
        key_fronts_wf(key_fronts(s.rhv)),
        keys_in_range(key_fronts(s.rhv), b.deg@.len()),
    ensures
        r == exists|k: Seq<usize>| key_fronts(s.rhv).contains_key(k) && #[trigger] key_gap(*s, *b)(k) > 0,
{
    let idx = mask_index(b);
    let ks = s.rhv.keys();
    let ghost g = key_gap(*s, *b);
    let ghost m = key_fronts(s.rhv);
    let mut i: usize = 0;
    while i < ks.len()
        invariant
            i <= ks@.len(),
            m == key_fronts(s.rhv),
            g == key_gap(*s, *b),
            forall|t: int| 0 <= t < ks@.len() ==> m.contains_key(#[trigger] ks@[t]@),
            forall|k: Seq<usize>| m.contains_key(k) ==> exists|t: int| 0 <= t < ks@.len() && #[trigger] ks@[t]@ == k,
            idx.letter_masks@ == b.letter_masks@,
            b.letter_masks@.len() == b.deg@.len(),
            255 * b.deg@.len() <= i32::MAX,
            key_fronts_wf(m),
            keys_in_range(m, b.deg@.len()),
            forall|t: int| 0 <= t < i ==> g(#[trigger] ks@[t]@) == 0,
        decreases ks.len() - i,
    {
        let key = &ks[i];
        let ghost k = key@;
        let mut hit = false;
        if key.len() >= 4 {
            match s.rhv.get(key) {
                Some(vecs) => {
                    proof {
                        assert forall|t: int| 0 <= t < vecs@.len() implies (#[trigger] vecs@[t]@).len() >= key@.len() by {
                            assert(vec_front(vecs@)[t] == vecs@[t]@);
                        }
                    }
                    let need = active_union_target_vecs(vecs.as_slice(), key.as_slice(), b.deg.as_slice());
                    if need != 0 {
                        let have = coverage_for_tuple(&idx, key.as_slice());
                        if have < need {
                            hit = true;
                        }
                    }
                },
                None => {},
            }
        }
        if hit {
            assert(g(k) > 0);
            return true;
        }
        i += 1;
    }
    proof {
        assert forall|k: Seq<usize>| m.contains_key(k) implies !(#[trigger] g(k) > 0) by {
            let t = choose|t: int| 0 <= t < ks@.len() && #[trigger] ks@[t]@ == k;
        }
    }
    false
}

/// Number of stored keys of four or more letters.
pub fn count_highk_keys(s: &Stats) -> (r: usize)
    ensures
        r == key_fronts(s.rhv).dom().filter(|k: Seq<usize>| k.len() >= 4).len(),
{
    let ks = s.rhv.keys();
    let ghost kv = Seq::new(ks@.len(), |t: int| ks@[t]@);
    let ghost m = key_fronts(s.rhv);
    let ghost pred = |k: Seq<usize>| k.len() >= 4;
    proof {
        assert(kv.to_set() =~= m.dom()) by {
            assert forall|k: Seq<usize>| kv.to_set().contains(k) <==> m.dom().contains(k) by {
                if kv.to_set().contains(k) {
                    let t = choose|t: int| 0 <= t < kv.len() && kv[t] == k;
                    assert(m.contains_key(ks@[t]@));
                }
                if m.dom().contains(k) {
                    let t = choose|t: int| 0 <= t < ks@.len() && #[trigger] ks@[t]@ == k;
                    assert(kv[t] == k);
                }
            }
        }
        assert(kv.take(0).to_set().filter(pred) =~= Set::<Seq<usize>>::empty());
    }
    let mut c: usize = 0;
    let mut i: usize = 0;
    while i < ks.len()
        invariant
            i <= ks@.len(),
            kv == Seq::new(ks@.len(), |t: int| ks@[t]@),
            forall|a: int, b: int| 0 <= a < ks@.len() && 0 <= b < ks@.len() && a != b ==> ks@[a]@ != ks@[b]@,
            pred == (|k: Seq<usize>| k.len() >= 4),
            c == kv.take(i as int).to_set().filter(pred).len(),
            kv.take(i as int).to_set().finite(),
            c <= i,
        decreases ks.len() - i,
    {
        let ghost k = ks@[i as int]@;
        let ghost done = kv.take(i as int).to_set();
        let ghost done1 = kv.take(i + 1).to_set();
        proof {
            assert(kv[i as int] == k);
            assert(!done.contains(k)) by {
                if done.contains(k) {
                    let s0 = kv.take(i as int);
                    let t = choose|t: int| 0 <= t < s0.len() && #[trigger] s0[t] == k;
                    assert(ks@[t]@ == ks@[i as int]@);
                }
            }
            let s1 = kv.take(i + 1);
            let s0 = kv.take(i as int);
            assert(s1 =~= s0.push(k));
            assert(done1 =~= done.insert(k)) by {
                assert forall|q: Seq<usize>| done1.contains(q) <==> done.insert(k).contains(q) by {
                    if done1.contains(q) {
                        let t = choose|t: int| 0 <= t < s1.len() && #[trigger] s1[t] == q;
                        if t < i {
                            assert(s0[t] == q);
                        }
                    }
                    if done.contains(q) {
                        let t = choose|t: int| 0 <= t < s0.len() && #[trigger] s0[t] == q;
                        assert(s1[t] == q);
                    }
                    if q == k {
                        assert(s1[i as int] == q);
                    }
                }
            }
            done.lemma_len_filter(pred);
            if k.len() >= 4 {
                assert(done1.filter(pred) =~= done.filter(pred).insert(k));
            } else {
                assert(done1.filter(pred) =~= done.filter(pred));
            }
        }
        if ks[i].len() >= 4 {
            c += 1;
        }
        i += 1;
    }
    proof {
        assert(kv.take(ks@.len() as int) =~= kv);
    }
    c
}

/* ------------------------------------------------------------------ */
/* Capacity-only top-ups                                                */
/* ------------------------------------------------------------------ */

/// Number of letters below `upto` on a cube row.
pub open spec fn row_count(row: Seq<bool>, upto: int) -> int
    decreases upto,
{
    if upto <= 0 {
        0
    } else {
        row_count(row, upto - 1) + if row[upto - 1] { 1int } else { 0int }
    }
}

/// Total free faces.
pub open spec fn cap_total(cap: Seq<usize>, upto: int) -> int
    decreases upto,
{
    if upto <= 0 {
        0
    } else {
        cap_total(cap, upto - 1) + cap[upto - 1]
    }
}

proof fn lemma_row_count_set(p: Seq<bool>, q: Seq<bool>, l: int, upto: int)
    requires
        p.len() == q.len(),
        0 <= l < p.len(),
        upto <= p.len(),
        !p[l],
        q[l],
        forall|x: int| 0 <= x < p.len() && x != l ==> #[trigger] q[x] == p[x],
    ensures
        row_count(q, upto) == row_count(p, upto) + if 0 <= l < upto { 1int } else { 0int },
    decreases upto,
{
    if upto > 0 {
        lemma_row_count_set(p, q, l, upto - 1);
    }
}

proof fn lemma_cap_total_dec(c: Seq<usize>, d: Seq<usize>, i: int, upto: int)
    requires
        c.len() == d.len(),
        0 <= i < c.len(),
        upto <= c.len(),
        d[i] + 1 == c[i],
        forall|x: int| 0 <= x < c.len() && x != i ==> #[trigger] d[x] == c[x],
    ensures
        cap_total(d, upto) == cap_total(c, upto) - if 0 <= i < upto { 1int } else { 0int },
    decreases upto,
{
    if upto > 0 {
        lemma_cap_total_dec(c, d, i, upto - 1);
    }
}

proof fn lemma_cap_total_nonneg(c: Seq<usize>, upto: int)
    ensures
        cap_total(c, upto) >= 0,
    decreases upto,
{
    if upto > 0 {
        lemma_cap_total_nonneg(c, upto - 1);
    }
}

/// `new` comes from `old` by putting letters on cubes with free faces,
/// one free face used per letter.
pub open spec fn placed_on_free_faces(old: Built, new: Built, n: nat) -> bool {
    &&& new.cap@.len() == old.cap@.len()
    &&& forall|i: int, l: int| 0 <= i < N_CUBES && 0 <= l < n && #[trigger] old.cubes_present@[i]@[l] ==> new.cubes_present@[i]@[l]
    &&& forall|i: int| 0 <= i < N_CUBES ==> #[trigger] new.cap@[i] + row_count(new.cubes_present@[i]@, n as int) == old.cap@[i] + row_count(
        old.cubes_present@[i]@,
        n as int,
    )
}

/// Every letter that `new` has on a cube and `old` did not is in `letters`.
pub open spec fn adds_only(old: Built, new: Built, n: nat, letters: Set<int>) -> bool {
    forall|i: int, l: int|
        0 <= i < N_CUBES && 0 <= l < n && #[trigger] new.cubes_present@[i]@[l] && !old.cubes_present@[i]@[l]
            ==> letters.contains(l)
}

/// The letters of the pairs in `keys`.
pub open spec fn pair_key_letters(keys: Seq<(usize, usize)>) -> Set<int> {
    Set::new(|l: int| exists|t: int| 0 <= t < keys.len() && (keys[t].0 == l || keys[t].1 == l))
}

/// The letters of the triples in `keys`.
pub open spec fn triple_key_letters(keys: Seq<(usize, usize, usize)>) -> Set<int> {
    Set::new(|l: int| exists|t: int| 0 <= t < keys.len() && (keys[t].0 == l || keys[t].1 == l || keys[t].2 == l))
}

proof fn lemma_adds_only_trans(a: Built, b: Built, c: Built, n: nat, letters: Set<int>)
    requires
        adds_only(a, b, n, letters),
        adds_only(b, c, n, letters),
    ensures
        adds_only(a, c, n, letters),
{
    assert forall|i: int, l: int|
        0 <= i < N_CUBES && 0 <= l < n && #[trigger] c.cubes_present@[i]@[l] && !a.cubes_present@[i]@[l]
        implies letters.contains(l) by {
        if !b.cubes_present@[i]@[l] {
        } else {
        }
    }
}

proof fn lemma_placed_refl(b: Built, n: nat)
    ensures
        placed_on_free_faces(b, b, n),
{
}

proof fn lemma_placed_trans(a: Built, b: Built, c: Built, n: nat)
    requires
        placed_on_free_faces(a, b, n),
        placed_on_free_faces(b, c, n),
    ensures
        placed_on_free_faces(a, c, n),
{
    assert forall|i: int, l: int| 0 <= i < N_CUBES && 0 <= l < n && #[trigger] a.cubes_present@[i]@[l] implies c.cubes_present@[i]@[l] by {
        assert(b.cubes_present@[i]@[l]);
    }
    assert forall|i: int| 0 <= i < N_CUBES implies #[trigger] c.cap@[i] + row_count(c.cubes_present@[i]@, n as int) == a.cap@[i] + row_count(
        a.cubes_present@[i]@,
        n as int,
    ) by {
        assert(b.cap@[i] + row_count(b.cubes_present@[i]@, n as int) == a.cap@[i] + row_count(a.cubes_present@[i]@, n as int));
    }
}

/// Replace letter `r` on cube `i` by letter `l`, which the cube lacks; the
/// free faces stay as they are.
pub fn swap_on_cube(b: &mut Built, i: usize, r: usize, l: usize)
    requires
        caches_ok(*old(b), old(b).deg@.len()),
        i < N_CUBES,
        r < old(b).deg@.len(),
        l < old(b).deg@.len(),
        old(b).cubes_present@[i as int]@[r as int],
        !old(b).cubes_present@[i as int]@[l as int],
    ensures
        caches_ok(*final(b), old(b).deg@.len()),
        final(b).cap == old(b).cap,
        tview(final(b).cubes_present@) == tview(old(b).cubes_present@).update(
            i as int,
            tview(old(b).cubes_present@)[i as int].update(r as int, false).update(l as int, true),
        ),
{
    let ghost p0 = b.cubes_present@;
    remove_letter(b, i, r);
    let ghost p1 = b.cubes_present@;
    add_letter(b, i, l);
    proof {
        let p2 = b.cubes_present@;
        let want = tview(p0).update(i as int, tview(p0)[i as int].update(r as int, false).update(l as int, true));
        assert forall|k: int| 0 <= k < p0.len() implies #[trigger] tview(p2)[k] =~= want[k] by {
            if k != i as int {
                assert(p2[k] == p1[k]);
                assert(p1[k] == p0[k]);
            }
        }
        assert(tview(p2) =~= want);
    }
}

/// Put `l` on cube `i`, which has a free face and lacks `l`, using the face.
pub fn place_on_free_face(b: &mut Built, i: usize, l: usize)
    requires
        caches_ok(*old(b), old(b).deg@.len()),
        old(b).cap@.len() == N_CUBES,
        i < N_CUBES,
        l < old(b).deg@.len(),
        old(b).cap@[i as int] > 0,
        !old(b).cubes_present@[i as int]@[l as int],
    ensures
        caches_ok(*final(b), old(b).deg@.len()),
        final(b).deg@.len() == old(b).deg@.len(),
        placed_on_free_faces(*old(b), *final(b), old(b).deg@.len()),
        table_set(old(b).cubes_present@, final(b).cubes_present@, i as int, l as int, true),
        final(b).cap@ == old(b).cap@.update(i as int, (old(b).cap@[i as int] - 1) as usize),
        cap_total(final(b).cap@, N_CUBES as int) == cap_total(old(b).cap@, N_CUBES as int) - 1,
{
    let ghost n = b.deg@.len();
    let ghost b0 = *b;
    add_letter(b, i, l);
    let c = b.cap[i];
    b.cap.set(i, c - 1);
    proof {
        let p0 = b0.cubes_present@;
        let p1 = b.cubes_present@;
        assert forall|k: int| 0 <= k < N_CUBES implies #[trigger] b.cap@[k] + row_count(p1[k]@, n as int) == b0.cap@[k] + row_count(p0[k]@, n as int) by {
            if k == i {
                lemma_row_count_set(p0[k]@, p1[k]@, l as int, n as int);
            } else {
                assert(p1[k] == p0[k]);
            }
        }
        lemma_cap_total_dec(b0.cap@, b.cap@, i as int, N_CUBES as int);
    }
}

/// The table as rows of booleans, one row per cube.
pub open spec fn tview(p: Seq<Vec<bool>>) -> Seq<Seq<bool>> {
    Seq::new(p.len(), |i: int| p[i]@)
}

/// Number of cubes below `upto` of table `t` carrying `a`, `b` or `c`.
pub open spec fn tcount(t: Seq<Seq<bool>>, a: int, b: int, c: int, upto: int) -> int
    decreases upto,
{
    if upto <= 0 {
        0
    } else {
        tcount(t, a, b, c, upto - 1) + if t[upto - 1][a] || t[upto - 1][b] || t[upto - 1][c] {
            1int
        } else {
            0int
        }
    }
}

/// The degrees of the `n` letters in table `t`.
pub open spec fn tdeg(t: Seq<Seq<bool>>, n: nat) -> Seq<i32> {
    Seq::new(n, |l: int| tcount(t, l, l, l, N_CUBES as int) as i32)
}

/// The first cube from `i` on that has a free face and carries none of
/// `a`, `b`, `c`; `N_CUBES` when there is none.
pub open spec fn first_free(t: Seq<Seq<bool>>, cap: Seq<usize>, a: int, b: int, c: int, i: int) -> int
    decreases N_CUBES - i,
{
    if i >= N_CUBES {
        N_CUBES as int
    } else if cap[i] > 0 && !t[i][a] && !t[i][b] && !t[i][c] {
        i
    } else {
        first_free(t, cap, a, b, c, i + 1)
    }
}

/// Whether letter `l` goes before `m` in a top-up: further below its
/// per-letter maximum `r1`, then less above its target `x`, then smaller.
pub open spec fn goes_first(deg: Seq<i32>, r1: Seq<i32>, x: Seq<i32>, l: usize, m: usize) -> bool {
    let dl = r1[l as int] - deg[l as int];
    let dm = r1[m as int] - deg[m as int];
    let ol = deg[l as int] - x[l as int];
    let om = deg[m as int] - x[m as int];
    dl > dm || (dl == dm && (ol < om || (ol == om && l < m)))
}

/// The letter of pair `(a, b)` a top-up puts down: the one that goes first.
pub open spec fn pick2(deg: Seq<i32>, r1: Seq<i32>, x: Seq<i32>, a: usize, b: usize) -> usize {
    if goes_first(deg, r1, x, b, a) { b } else { a }
}

/// The letter of triple `(a, b, c)` a top-up puts down: the one that goes first.
pub open spec fn pick3(deg: Seq<i32>, r1: Seq<i32>, x: Seq<i32>, a: usize, b: usize, c: usize) -> usize {
    let ab = pick2(deg, r1, x, a, b);
    if goes_first(deg, r1, x, c, ab) { c } else { ab }
}

/// Table and free faces after putting letter `l` on cube `i`.
pub open spec fn place(t: Seq<Seq<bool>>, cap: Seq<usize>, i: int, l: int) -> (Seq<Seq<bool>>, Seq<usize>) {
    (t.update(i, t[i].update(l, true)), cap.update(i, (cap[i] - 1) as usize))
}

/// Topping up pair `(a, b)` from table `t` and free faces `cap`: while the
/// cubes carrying `a` or `b` are fewer than the pair's need and some cube
/// has a free face and neither letter, put the chosen letter on the first
/// such cube. `fuel` bounds the steps (each one uses a free face).
pub open spec fn pair_fill(
    fr: Map<(usize, usize), Seq<[u8; 2]>>,
    r1: Seq<i32>,
    x: Seq<i32>,
    t: Seq<Seq<bool>>,
    cap: Seq<usize>,
    a: usize,
    b: usize,
    fuel: nat,
) -> (Seq<Seq<bool>>, Seq<usize>)
    decreases fuel,
{
    let deg = tdeg(t, r1.len());
    if fuel == 0 || tcount(t, a as int, b as int, b as int, N_CUBES as int) >= need2(fr, a, b, deg) {
        (t, cap)
    } else {
        let i = first_free(t, cap, a as int, b as int, b as int, 0);
        if i >= N_CUBES {
            (t, cap)
        } else {
            let st = place(t, cap, i, pick2(deg, r1, x, a, b) as int);
            pair_fill(fr, r1, x, st.0, st.1, a, b, (fuel - 1) as nat)
        }
    }
}

/// Topping up each pair of `keys` in turn.
pub open spec fn pair_fills(
    fr: Map<(usize, usize), Seq<[u8; 2]>>,
    r1: Seq<i32>,
    x: Seq<i32>,
    t: Seq<Seq<bool>>,
    cap: Seq<usize>,
    keys: Seq<(usize, usize)>,
) -> (Seq<Seq<bool>>, Seq<usize>)
    decreases keys.len(),
{
    if keys.len() == 0 {
        (t, cap)
    } else {
        let s1 = pair_fills(fr, r1, x, t, cap, keys.drop_last());
        pair_fill(fr, r1, x, s1.0, s1.1, keys.last().0, keys.last().1, cap_total(s1.1, N_CUBES as int) as nat)
    }
}

/// Topping up triple `(a, b, c)`, as `pair_fill` does for a pair.
pub open spec fn triple_fill(
    fr: Map<(usize, usize, usize), Seq<[u8; 3]>>,
    r1: Seq<i32>,
    x: Seq<i32>,
    t: Seq<Seq<bool>>,
    cap: Seq<usize>,
    a: usize,
    b: usize,
    c: usize,
    fuel: nat,
) -> (Seq<Seq<bool>>, Seq<usize>)
    decreases fuel,
{
    let deg = tdeg(t, r1.len());
    if fuel == 0 || tcount(t, a as int, b as int, c as int, N_CUBES as int) >= need3(fr, a, b, c, deg) {
        (t, cap)
    } else {
        let i = first_free(t, cap, a as int, b as int, c as int, 0);
        if i >= N_CUBES {
            (t, cap)
        } else {
            let st = place(t, cap, i, pick3(deg, r1, x, a, b, c) as int);
            triple_fill(fr, r1, x, st.0, st.1, a, b, c, (fuel - 1) as nat)
        }
    }
}

/// Topping up each triple of `keys` in turn.
pub open spec fn triple_fills(
    fr: Map<(usize, usize, usize), Seq<[u8; 3]>>,
    r1: Seq<i32>,
    x: Seq<i32>,
    t: Seq<Seq<bool>>,
    cap: Seq<usize>,
    keys: Seq<(usize, usize, usize)>,
) -> (Seq<Seq<bool>>, Seq<usize>)
    decreases keys.len(),
{
    if keys.len() == 0 {
        (t, cap)
    } else {
        let s1 = triple_fills(fr, r1, x, t, cap, keys.drop_last());
        triple_fill(
            fr,
            r1,
            x,
            s1.0,
            s1.1,
            keys.last().0,
            keys.last().1,
            keys.last().2,
            cap_total(s1.1, N_CUBES as int) as nat,
        )
    }
}

proof fn lemma_tcount(p: Seq<Vec<bool>>, a: int, b: int, c: int, upto: int)
    requires
        upto <= p.len(),
    ensures
        tcount(tview(p), a, b, c, upto) == cubes_with(p, a, b, c, upto),
    decreases upto,
{
    if upto > 0 {
        lemma_tcount(p, a, b, c, upto - 1);
    }
}

/// With consistent caches, the degree cache and the union caches are
/// those of the table.
proof fn lemma_caches_view(bt: Built, n: nat)
    requires
        caches_ok(bt, n),
    ensures
        bt.deg@ == tdeg(tview(bt.cubes_present@), n),
        forall|a: int, t: int| 0 <= a < t < n ==> #[trigger] bt.union2@[a]@[t] == tcount(tview(bt.cubes_present@), a, t, t, N_CUBES as int),
        forall|a: int, x: int, c: int|
            0 <= a < x < c < n ==> #[trigger] bt.union3@[a]@[x]@[c] == tcount(tview(bt.cubes_present@), a, x, c, N_CUBES as int),
{
    let p = bt.cubes_present@;
    assert forall|l: int| 0 <= l < n implies #[trigger] bt.deg@[l] == tdeg(tview(p), n)[l] by {
        lemma_tcount(p, l, l, l, N_CUBES as int);
        lemma_cubes_with_bound(p, l, l, l, N_CUBES as int);
    }
    assert(bt.deg@ =~= tdeg(tview(p), n));
    assert forall|a: int, t: int| 0 <= a < t < n implies #[trigger] bt.union2@[a]@[t] == tcount(tview(p), a, t, t, N_CUBES as int) by {
        lemma_tcount(p, a, t, t, N_CUBES as int);
    }
    assert forall|a: int, x: int, c: int| 0 <= a < x < c < n implies #[trigger] bt.union3@[a]@[x]@[c] == tcount(tview(p), a, x, c, N_CUBES as int) by {
        lemma_tcount(p, a, x, c, N_CUBES as int);
    }
}

/// Putting `l` on cube `i` is `place` on the table view.
proof fn lemma_place_view(p0: Seq<Vec<bool>>, p1: Seq<Vec<bool>>, c0: Seq<usize>, c1: Seq<usize>, i: int, l: int)
    requires
        0 <= i < p0.len(),
        0 <= i < c0.len(),
        table_set(p0, p1, i, l, true),
        0 <= l < p0[i]@.len(),
        c1 == c0.update(i, (c0[i] - 1) as usize),
    ensures
        (tview(p1), c1) == place(tview(p0), c0, i, l),
{
    let t0 = tview(p0);
    let st = place(t0, c0, i, l);
    assert forall|k: int| 0 <= k < p0.len() implies #[trigger] tview(p1)[k] =~= st.0[k] by {
        if k != i {
            assert(p1[k] == p0[k]);
        }
    }
    assert(tview(p1) =~= st.0);
}

/// For each pair of `keys` in turn, while its union count is below its
/// need, put one of its two letters on the first cube with a free face that
/// carries neither: the letter further below its per-letter maximum, then
/// the one less above its target degree `x`, then the smaller letter.
pub fn r2_capacity_topups(b: &mut Built, s: &Stats, x: &[i32], keys: &[(usize, usize)])
    requires
        caches_ok(*old(b), old(b).deg@.len()),
        old(b).cap@.len() == N_CUBES,
        s.r1@.len() == old(b).deg@.len(),
        x@.len() == old(b).deg@.len(),
        forall|l: int| 0 <= l < s.r1@.len() ==> 0 <= #[trigger] s.r1@[l],
        forall|l: int| 0 <= l < x@.len() ==> 0 <= #[trigger] x@[l] <= N_CUBES,
        forall|t: int| 0 <= t < keys@.len() ==> (#[trigger] keys@[t]).0 < keys@[t].1 < old(b).deg@.len(),
    ensures
        caches_ok(*final(b), old(b).deg@.len()),
        final(b).cap@.len() == N_CUBES,
        (tview(final(b).cubes_present@), final(b).cap@) == pair_fills(
            pair_fronts(s.r2v),
            s.r1@,
            x@,
            tview(old(b).cubes_present@),
            old(b).cap@,
            keys@,
        ),
        placed_on_free_faces(*old(b), *final(b), old(b).deg@.len()),
        adds_only(*old(b), *final(b), old(b).deg@.len(), pair_key_letters(keys@)),
{
    let n = b.deg.len();
    let ghost b0 = *b;
    let ghost fr = pair_fronts(s.r2v);
    proof {
        lemma_placed_refl(*b, n as nat);
        assert(keys@.take(0) =~= Seq::<(usize, usize)>::empty());
    }
    let mut k: usize = 0;
    while k < keys.len()
        invariant
            k <= keys@.len(),
            n == b.deg@.len(),
            n == b0.deg@.len(),
            fr == pair_fronts(s.r2v),
            caches_ok(*b, n as nat),
            b.cap@.len() == N_CUBES,
            s.r1@.len() == n,
            x@.len() == n,
            forall|l: int| 0 <= l < n ==> 0 <= #[trigger] s.r1@[l],
            forall|l: int| 0 <= l < n ==> 0 <= #[trigger] x@[l] <= N_CUBES,
            forall|t: int| 0 <= t < keys@.len() ==> (#[trigger] keys@[t]).0 < keys@[t].1 < n,
            placed_on_free_faces(b0, *b, n as nat),
            adds_only(b0, *b, n as nat, pair_key_letters(keys@)),
            (tview(b.cubes_present@), b.cap@) == pair_fills(fr, s.r1@, x@, tview(b0.cubes_present@), b0.cap@, keys@.take(k as int)),
        decreases keys.len() - k,
    {
        let (a_i, b_i) = keys[k];
        let ghost goal = pair_fill(fr, s.r1@, x@, tview(b.cubes_present@), b.cap@, a_i, b_i, cap_total(b.cap@, N_CUBES as int) as nat);
        proof {
            assert(keys@.take(k + 1).drop_last() =~= keys@.take(k as int));
            assert(keys@.take(k + 1).last() == keys@[k as int]);
            lemma_cap_total_nonneg(b.cap@, N_CUBES as int);
        }
        loop
            invariant
                n == b.deg@.len(),
                caches_ok(*b, n as nat),
                b.cap@.len() == N_CUBES,
                s.r1@.len() == n,
                x@.len() == n,
                a_i < b_i < n,
                fr == pair_fronts(s.r2v),
                forall|l: int| 0 <= l < n ==> 0 <= #[trigger] s.r1@[l],
                forall|l: int| 0 <= l < n ==> 0 <= #[trigger] x@[l] <= N_CUBES,
                placed_on_free_faces(b0, *b, n as nat),
                adds_only(b0, *b, n as nat, pair_key_letters(keys@)),
                k < keys@.len(),
                keys@[k as int].0 == a_i,
                keys@[k as int].1 == b_i,
                goal == pair_fill(fr, s.r1@, x@, tview(b.cubes_present@), b.cap@, a_i, b_i, cap_total(b.cap@, N_CUBES as int) as nat),
            ensures
                (tview(b.cubes_present@), b.cap@) == goal,
            decreases cap_total(b.cap@, N_CUBES as int),
        {
            proof {
                lemma_caches_view(*b, n as nat);
                lemma_cap_total_nonneg(b.cap@, N_CUBES as int);
            }
            let need = active_union_target2(&s.r2v, a_i, b_i, b.deg.as_slice());
            if b.union2[a_i][b_i] >= need {
                break;
            }
            let mut placed = false;
            let mut i: usize = 0;
            let ghost before = *b;
            let ghost tv = tview(b.cubes_present@);
            while i < N_CUBES
                invariant_except_break
                    !placed,
                invariant
                    i <= N_CUBES,
                    before == *b,
                    tv == tview(b.cubes_present@),
                    n == b.deg@.len(),
                    caches_ok(*b, n as nat),
                    b.cap@.len() == N_CUBES,
                    a_i < b_i < n,
                    first_free(tv, b.cap@, a_i as int, b_i as int, b_i as int, 0) == first_free(
                        tv,
                        b.cap@,
                        a_i as int,
                        b_i as int,
                        b_i as int,
                        i as int,
                    ),
                ensures
                    placed ==> (i < N_CUBES && b.cap@[i as int] > 0 && !b.cubes_present@[i as int]@[a_i as int]
                        && !b.cubes_present@[i as int]@[b_i as int]),
                    placed ==> first_free(tv, b.cap@, a_i as int, b_i as int, b_i as int, 0) == i,
                    !placed ==> first_free(tv, b.cap@, a_i as int, b_i as int, b_i as int, 0) == N_CUBES,
                decreases N_CUBES - i,
            {
                if b.cap[i] > 0 && !(b.cubes_present[i][a_i] || b.cubes_present[i][b_i]) {
                    placed = true;
                    break;
                }
                i += 1;
            }
            if !placed {
                break;
            }
            proof {
                lemma_cubes_with_bound(b.cubes_present@, a_i as int, a_i as int, a_i as int, N_CUBES as int);
                lemma_cubes_with_bound(b.cubes_present@, b_i as int, b_i as int, b_i as int, N_CUBES as int);
            }
            let da = s.r1[a_i] - b.deg[a_i];
            let db = s.r1[b_i] - b.deg[b_i];
            let target = if da > db {
                a_i
            } else if db > da {
                b_i
            } else {
                let oa = b.deg[a_i] - x[a_i];
                let ob = b.deg[b_i] - x[b_i];
                if oa < ob {
                    a_i
                } else if ob < oa {
                    b_i
                } else if a_i < b_i {
                    a_i
                } else {
                    b_i
                }
            };
            assert(target == pick2(b.deg@, s.r1@, x@, a_i, b_i));
            let ghost mid = *b;
            place_on_free_face(b, i, target);
            proof {
                lemma_placed_trans(b0, mid, *b, n as nat);
                lemma_cap_total_nonneg(b.cap@, N_CUBES as int);
                lemma_cap_total_nonneg(mid.cap@, N_CUBES as int);
                lemma_place_view(mid.cubes_present@, b.cubes_present@, mid.cap@, b.cap@, i as int, target as int);
                assert(pair_key_letters(keys@).contains(target as int)) by {
                    assert(0 <= k < keys@.len() && (keys@[k as int].0 == target || keys@[k as int].1 == target));
                }
                assert forall|c: int, l: int|
                    0 <= c < N_CUBES && 0 <= l < n && #[trigger] b.cubes_present@[c]@[l] && !mid.cubes_present@[c]@[l]
                    implies pair_key_letters(keys@).contains(l) by {
                    if c != i {
                        assert(b.cubes_present@[c] == mid.cubes_present@[c]);
                    }
                }
                lemma_adds_only_trans(b0, mid, *b, n as nat, pair_key_letters(keys@));
            }
        }
        k += 1;
    }
    proof {
        assert(keys@.take(keys@.len() as int) =~= keys@);
    }
}

/// For each triple of `keys` in turn, while its union count is below its
/// need, put one of its letters on the first cube with a free face that
/// carries none of them: the letter furthest below its per-letter maximum,
/// then the one least above its target degree `x`, then the smallest letter.
pub fn r3_capacity_topups(b: &mut Built, s: &Stats, x: &[i32], keys: &[(usize, usize, usize)])
    requires
        caches_ok(*old(b), old(b).deg@.len()),
        old(b).cap@.len() == N_CUBES,
        s.r1@.len() == old(b).deg@.len(),
        x@.len() == old(b).deg@.len(),
        forall|l: int| 0 <= l < s.r1@.len() ==> 0 <= #[trigger] s.r1@[l],
        forall|l: int| 0 <= l < x@.len() ==> 0 <= #[trigger] x@[l] <= N_CUBES,
        forall|t: int| 0 <= t < keys@.len() ==> (#[trigger] keys@[t]).0 < keys@[t].1 < keys@[t].2 < old(b).deg@.len(),
    ensures
        caches_ok(*final(b), old(b).deg@.len()),
        final(b).cap@.len() == N_CUBES,
        (tview(final(b).cubes_present@), final(b).cap@) == triple_fills(
            triple_fronts(s.r3v),
            s.r1@,
            x@,
            tview(old(b).cubes_present@),
            old(b).cap@,
            keys@,
        ),
        placed_on_free_faces(*old(b), *final(b), old(b).deg@.len()),
        adds_only(*old(b), *final(b), old(b).deg@.len(), triple_key_letters(keys@)),
{
    let n = b.deg.len();
    let ghost b0 = *b;
    let ghost fr = triple_fronts(s.r3v);
    proof {
        lemma_placed_refl(*b, n as nat);
        assert(keys@.take(0) =~= Seq::<(usize, usize, usize)>::empty());
    }
    let mut k: usize = 0;
    while k < keys.len()
        invariant
            k <= keys@.len(),
            n == b.deg@.len(),
            n == b0.deg@.len(),
            fr == triple_fronts(s.r3v),
            caches_ok(*b, n as nat),
            b.cap@.len() == N_CUBES,
            s.r1@.len() == n,
            x@.len() == n,
            forall|l: int| 0 <= l < n ==> 0 <= #[trigger] s.r1@[l],
            forall|l: int| 0 <= l < n ==> 0 <= #[trigger] x@[l] <= N_CUBES,
            forall|t: int| 0 <= t < keys@.len() ==> (#[trigger] keys@[t]).0 < keys@[t].1 < keys@[t].2 < n,
            placed_on_free_faces(b0, *b, n as nat),
            adds_only(b0, *b, n as nat, triple_key_letters(keys@)),
            (tview(b.cubes_present@), b.cap@) == triple_fills(fr, s.r1@, x@, tview(b0.cubes_present@), b0.cap@, keys@.take(k as int)),
        decreases keys.len() - k,
    {
        let (a_i, b_i, c_i) = keys[k];
        let ghost goal = triple_fill(fr, s.r1@, x@, tview(b.cubes_present@), b.cap@, a_i, b_i, c_i, cap_total(b.cap@, N_CUBES as int) as nat);
        proof {
            assert(keys@.take(k + 1).drop_last() =~= keys@.take(k as int));
            assert(keys@.take(k + 1).last() == keys@[k as int]);
            lemma_cap_total_nonneg(b.cap@, N_CUBES as int);
        }
        loop
            invariant
                n == b.deg@.len(),
                caches_ok(*b, n as nat),
                b.cap@.len() == N_CUBES,
                s.r1@.len() == n,
                x@.len() == n,
                a_i < b_i < c_i < n,
                fr == triple_fronts(s.r3v),
                forall|l: int| 0 <= l < n ==> 0 <= #[trigger] s.r1@[l],
                forall|l: int| 0 <= l < n ==> 0 <= #[trigger] x@[l] <= N_CUBES,
                placed_on_free_faces(b0, *b, n as nat),
                adds_only(b0, *b, n as nat, triple_key_letters(keys@)),
                k < keys@.len(),
                keys@[k as int].0 == a_i,
                keys@[k as int].1 == b_i,
                keys@[k as int].2 == c_i,
                goal == triple_fill(fr, s.r1@, x@, tview(b.cubes_present@), b.cap@, a_i, b_i, c_i, cap_total(b.cap@, N_CUBES as int) as nat),
            ensures
                (tview(b.cubes_present@), b.cap@) == goal,
            decreases cap_total(b.cap@, N_CUBES as int),
        {
            proof {
                lemma_caches_view(*b, n as nat);
                lemma_cap_total_nonneg(b.cap@, N_CUBES as int);
            }
            let need = active_union_target3(&s.r3v, a_i, b_i, c_i, b.deg.as_slice());
            if b.union3[a_i][b_i][c_i] >= need {
                break;
            }
            let mut placed = false;
            let mut i: usize = 0;
            let ghost before = *b;
            let ghost tv = tview(b.cubes_present@);
            while i < N_CUBES
                invariant_except_break
                    !placed,
                invariant
                    i <= N_CUBES,
                    before == *b,
                    tv == tview(b.cubes_present@),
                    n == b.deg@.len(),
                    caches_ok(*b, n as nat),
                    b.cap@.len() == N_CUBES,
                    a_i < b_i < c_i < n,
                    first_free(tv, b.cap@, a_i as int, b_i as int, c_i as int, 0) == first_free(
                        tv,
                        b.cap@,
                        a_i as int,
                        b_i as int,
                        c_i as int,
                        i as int,
                    ),
                ensures
                    placed ==> (i < N_CUBES && b.cap@[i as int] > 0 && !b.cubes_present@[i as int]@[a_i as int]
                        && !b.cubes_present@[i as int]@[b_i as int] && !b.cubes_present@[i as int]@[c_i as int]),
                    placed ==> first_free(tv, b.cap@, a_i as int, b_i as int, c_i as int, 0) == i,
                    !placed ==> first_free(tv, b.cap@, a_i as int, b_i as int, c_i as int, 0) == N_CUBES,
                decreases N_CUBES - i,
            {
                if b.cap[i] > 0 && !(b.cubes_present[i][a_i] || b.cubes_present[i][b_i] || b.cubes_present[i][c_i]) {
                    placed = true;
                    break;
                }
                i += 1;
            }
            if !placed {
                break;
            }
            proof {
                lemma_cubes_with_bound(b.cubes_present@, a_i as int, a_i as int, a_i as int, N_CUBES as int);
                lemma_cubes_with_bound(b.cubes_present@, b_i as int, b_i as int, b_i as int, N_CUBES as int);
                lemma_cubes_with_bound(b.cubes_present@, c_i as int, c_i as int, c_i as int, N_CUBES as int);
            }
            let mut best = a_i;
            let mut bd = s.r1[a_i] - b.deg[a_i];
            let mut bo = b.deg[a_i] - x[a_i];
            let db = s.r1[b_i] - b.deg[b_i];
            let ob = b.deg[b_i] - x[b_i];
            if db > bd || (db == bd && (ob < bo || (ob == bo && b_i < best))) {
                best = b_i;
                bd = db;
                bo = ob;
            }
            let dc = s.r1[c_i] - b.deg[c_i];
            let oc = b.deg[c_i] - x[c_i];
            if dc > bd || (dc == bd && (oc < bo || (oc == bo && c_i < best))) {
                best = c_i;
            }
            let target = best;
            assert(target == pick3(b.deg@, s.r1@, x@, a_i, b_i, c_i));
            let ghost mid = *b;
            place_on_free_face(b, i, target);
            proof {
                lemma_placed_trans(b0, mid, *b, n as nat);
                lemma_cap_total_nonneg(b.cap@, N_CUBES as int);
                lemma_cap_total_nonneg(mid.cap@, N_CUBES as int);
                lemma_place_view(mid.cubes_present@, b.cubes_present@, mid.cap@, b.cap@, i as int, target as int);
                assert(triple_key_letters(keys@).contains(target as int)) by {
                    assert(0 <= k < keys@.len() && (keys@[k as int].0 == target || keys@[k as int].1 == target || keys@[k as int].2 == target));
                }
                assert forall|c: int, l: int|
                    0 <= c < N_CUBES && 0 <= l < n && #[trigger] b.cubes_present@[c]@[l] && !mid.cubes_present@[c]@[l]
                    implies triple_key_letters(keys@).contains(l) by {
                    if c != i {
                        assert(b.cubes_present@[c] == mid.cubes_present@[c]);
                    }
                }
                lemma_adds_only_trans(b0, mid, *b, n as nat, triple_key_letters(keys@));
            }
        }
        k += 1;
    }
    proof {
        assert(keys@.take(keys@.len() as int) =~= keys@);
    }
}

/* ------------------------------------------------------------------ */
/* Choosing the high-k key to work on                                   */
/* ------------------------------------------------------------------ */

/// The gap of a key as the high-k step sees it: 0 for keys not stored.
pub open spec fn pick_gap(s: Stats, b: Built, k: Seq<usize>) -> int {
    if key_fronts(s.rhv).contains_key(k) {
        key_gap(s, b)(k)
    } else {
        0
    }
}

/// The position of the first least value of `deg` over the letters of `key`.
pub open spec fn least_degree_at(key: Seq<usize>, deg: Seq<i32>, j: int) -> bool {
    &&& 0 <= j < key.len()
    &&& forall|t: int| 0 <= t < key.len() ==> deg[key[j] as int] <= #[trigger] deg[key[t] as int]
    &&& forall|t: int| 0 <= t < j ==> deg[key[j] as int] < #[trigger] deg[key[t] as int]
}

/// Among the first `budget` keys, the one with the largest positive gap
/// (the earliest on ties), with the letter of least degree in it (the first
/// on ties); `None` when no scanned key has a gap.
pub fn highk_pick(b: &Built, s: &Stats, keys: &[Vec<usize>], budget: usize) -> (r: Option<(usize, usize)>)
    requires
        b.letter_masks@.len() == b.deg@.len(),
        255 * b.deg@.len() <= i32::MAX,
        key_fronts_wf(key_fronts(s.rhv)),
        forall|t: int| 0 <= t < keys@.len() ==> (#[trigger] keys@[t])@.len() <= b.deg@.len(),
        forall|t: int, j: int| 0 <= t < keys@.len() && 0 <= j < keys@[t]@.len() ==> (#[trigger] keys@[t]@[j] as int) < b.deg@.len(),
    ensures
        match r {
            None => forall|t: int| 0 <= t < keys@.len() && t < budget ==> pick_gap(*s, *b, #[trigger] keys@[t]@) == 0,
            Some((i, l)) => {
                &&& i < keys@.len() && i < budget
                &&& pick_gap(*s, *b, keys@[i as int]@) > 0
                &&& forall|t: int| 0 <= t < keys@.len() && t < budget ==> pick_gap(*s, *b, #[trigger] keys@[t]@) <= pick_gap(*s, *b, keys@[i as int]@)
                &&& forall|t: int| 0 <= t < i ==> pick_gap(*s, *b, #[trigger] keys@[t]@) < pick_gap(*s, *b, keys@[i as int]@)
                &&& exists|j: int| least_degree_at(keys@[i as int]@, b.deg@, j) && keys@[i as int]@[j] == l
            },
        },
{
    let idx = mask_index(b);
    let scan = if budget < keys.len() { budget } else { keys.len() };
    let mut best_gap: i32 = 0;
    let mut best_idx: usize = 0;
    let mut i: usize = 0;
    while i < scan
        invariant
            i <= scan,
            scan <= keys@.len(),
            scan <= budget,
            idx.letter_masks@ == b.letter_masks@,
            b.letter_masks@.len() == b.deg@.len(),
            255 * b.deg@.len() <= i32::MAX,
            key_fronts_wf(key_fronts(s.rhv)),
            forall|t: int| 0 <= t < keys@.len() ==> (#[trigger] keys@[t])@.len() <= b.deg@.len(),
            forall|t: int, j: int| 0 <= t < keys@.len() && 0 <= j < keys@[t]@.len() ==> (#[trigger] keys@[t]@[j] as int) < b.deg@.len(),
            0 <= best_gap,
            best_gap > 0 ==> best_idx < i && best_gap == pick_gap(*s, *b, keys@[best_idx as int]@),
            forall|t: int| 0 <= t < i ==> pick_gap(*s, *b, #[trigger] keys@[t]@) <= best_gap,
            best_gap > 0 ==> forall|t: int| 0 <= t < best_idx ==> pick_gap(*s, *b, #[trigger] keys@[t]@) < best_gap,
        decreases scan - i,
    {
        let key = &keys[i];
        let mut gap: i32 = 0;
        if key.len() >= 4 {
            match s.rhv.get(key) {
                Some(vecs) => {
                    proof {
                        assert forall|t: int| 0 <= t < vecs@.len() implies (#[trigger] vecs@[t]@).len() >= key@.len() by {
                            assert(vec_front(vecs@)[t] == vecs@[t]@);
                        }
                        crate::stats::lemma_need_key_bound(vec_front(vecs@), key@, b.deg@);
                    }
                    let need = active_union_target_vecs(vecs.as_slice(), key.as_slice(), b.deg.as_slice());
                    if need != 0 {
                        let have = coverage_for_tuple(&idx, key.as_slice());
                        if need > have {
                            gap = need - have;
                        }
                    }
                },
                None => {},
            }
        }
        proof {
            assert(gap == pick_gap(*s, *b, keys@[i as int]@));
        }
        if gap > best_gap {
            best_gap = gap;
            best_idx = i;
        }
        i += 1;
    }
    if best_gap <= 0 {
        return None;
    }
    let key = &keys[best_idx];
    let mut best_l = key[0];
    let mut bestd: i32 = i32::MAX;
    let ghost mut bj: int = 0;
    let mut j: usize = 0;
    proof {
        assert(key@.len() >= 4) by {
            if key@.len() < 4 {
                assert(pick_gap(*s, *b, key@) == 0);
            }
        }
    }
    while j < key.len()
        invariant
            j <= key@.len(),
            key@.len() >= 4,
            forall|t: int| 0 <= t < key@.len() ==> (#[trigger] key@[t] as int) < b.deg@.len(),
            0 <= bj < key@.len(),
            best_l == key@[bj],
            j > 0 ==> bestd == b.deg@[key@[bj] as int] && bj < j,
            j == 0 ==> bestd == i32::MAX && bj == 0,
            forall|t: int| 0 <= t < j ==> bestd <= #[trigger] b.deg@[key@[t] as int],
            forall|t: int| 0 <= t < bj ==> bestd < #[trigger] b.deg@[key@[t] as int],
        decreases key.len() - j,
    {
        let l = key[j];
        if b.deg[l] < bestd {
            bestd = b.deg[l];
            best_l = l;
            proof {
                bj = j as int;
            }
        }
        j += 1;
    }
    proof {
        assert(least_degree_at(key@, b.deg@, bj));
    }
    Some((best_idx, best_l))
}

/* ------------------------------------------------------------------ */
/* Printable views of the cubes                                         */
/* ------------------------------------------------------------------ */

/// The letters on a cube row, in increasing order.
pub open spec fn row_letters(row: Seq<bool>, upto: int) -> Seq<usize>
    decreases upto,
{
    if upto <= 0 {
        Seq::empty()
    } else {
        let prev = row_letters(row, upto - 1);
        if row[upto - 1] {
            prev.push((upto - 1) as usize)
        } else {
            prev
        }
    }
}

/// Order letters by their symbol, then by letter.
pub open spec fn symbol_key(syms: Seq<char>) -> spec_fn(usize) -> (u64, u64, usize) {
    |l: usize| ((syms[l as int] as u32) as u64, 0u64, l)
}

/// The symbols of the letters on cube `i`, sorted.
pub fn cube_face(b: &Built, alpha: &Alphabet, i: usize) -> (face: Vec<char>)
    requires
        table_ok(b.cubes_present@, alpha@.len()),
        i < N_CUBES,
    ensures
        exists|ord: Seq<usize>|
            ranked(ord, row_letters(b.cubes_present@[i as int]@, alpha@.len() as int), symbol_key(alpha@))
                && face@ == Seq::new(ord.len(), |j: int| alpha@[ord[j] as int]),
{
    let n = crate::alphabet::n_letters(alpha);
    let ghost row = b.cubes_present@[i as int]@;
    let ghost key = symbol_key(alpha@);
    let mut keys: Vec<(u64, u64, usize)> = Vec::new();
    let mut letters: Vec<usize> = Vec::new();
    let mut l: usize = 0;
    while l < n
        invariant
            l <= n,
            n == alpha@.len(),
            row == b.cubes_present@[i as int]@,
            row.len() == n,
            i < N_CUBES,
            table_ok(b.cubes_present@, n as nat),
            key == symbol_key(alpha@),
            letters@ == row_letters(row, l as int),
            keys@.len() == letters@.len(),
            forall|t: int| 0 <= t < keys@.len() ==> #[trigger] keys@[t] == key(letters@[t]) && keys@[t].2 == letters@[t],
            forall|a: int, c: int| 0 <= a < c < letters@.len() ==> letters@[a] < letters@[c],
            forall|t: int| 0 <= t < letters@.len() ==> (#[trigger] letters@[t]) < l,
        decreases n - l,
    {
        if b.cubes_present[i][l] {
            let c = crate::alphabet::index_char(alpha, l);
            keys.push(((c as u32) as u64, 0u64, l));
            letters.push(l);
        }
        l += 1;
    }
    proof {
        assert forall|a: int, c: int| 0 <= a < keys@.len() && 0 <= c < keys@.len() && a != c implies keys@[a].2 != keys@[c].2 by {
            if a < c {
                assert(letters@[a] < letters@[c]);
            } else {
                assert(letters@[c] < letters@[a]);
            }
        }
    }
    let ord = sort_letters_by_pub(keys, Ghost(key));
    proof {
        assert forall|t: int| 0 <= t < ord@.len() implies (#[trigger] ord@[t] as int) < n by {
            assert(ord@.contains(ord@[t]));
            let u = choose|u: int| 0 <= u < keys@.len() && keys@[u].2 == ord@[t];
            assert(letters@[u] == ord@[t]);
        }
    }
    let mut face: Vec<char> = Vec::new();
    let mut j: usize = 0;
    while j < ord.len()
        invariant
            j <= ord@.len(),
            n == alpha@.len(),
            forall|t: int| 0 <= t < ord@.len() ==> (#[trigger] ord@[t] as int) < n,
            face@ == Seq::new(j as nat, |t: int| alpha@[ord@[t] as int]),
        decreases ord.len() - j,
    {
        face.push(crate::alphabet::index_char(alpha, ord[j]));
        j += 1;
        assert(face@ =~= Seq::new(j as nat, |t: int| alpha@[ord@[t] as int]));
    }
    proof {
        assert forall|x: usize| ord@.contains(x) <==> letters@.contains(x) by {
            if letters@.contains(x) {
                let t = choose|t: int| 0 <= t < letters@.len() && letters@[t] == x;
                assert(keys@[t].2 == x);
            }
            if ord@.contains(x) {
                let t = choose|t: int| 0 <= t < keys@.len() && keys@[t].2 == x;
                assert(letters@[t] == x);
            }
        }
        assert(ranked(ord@, row_letters(row, n as int), key));
    }
    face
}

/// The letters of cube `i` in symbol order.
pub open spec fn face_order(b: Built, syms: Seq<char>, i: int) -> Seq<usize> {
    choose|ord: Seq<usize>| ranked(ord, row_letters(b.cubes_present@[i]@, syms.len() as int), symbol_key(syms))
}

/// The symbols on cube `i`, sorted.
pub open spec fn face_of(b: Built, syms: Seq<char>, i: int) -> Seq<char> {
    Seq::new(face_order(b, syms, i).len(), |j: int| syms[face_order(b, syms, i)[j] as int])
}

/// A symbol in single quotes.
pub open spec fn quoted(c: char) -> Seq<char> {
    seq!['\'', c, '\'']
}

/// The quoted symbols of a face, separated by commas.
pub open spec fn quoted_list(f: Seq<char>) -> Seq<char>
    decreases f.len(),
{
    if f.len() == 0 {
        Seq::empty()
    } else if f.len() == 1 {
        quoted(f[0])
    } else {
        quoted_list(f.drop_last()) + seq![','] + quoted(f.last())
    }
}

/// The Julia literal of one face: `Set{Char}(['a','b'])`.
pub open spec fn face_code(f: Seq<char>) -> Seq<char> {
    "Set{Char}(["@ + quoted_list(f) + "])"@
}

/// Parts separated by `", "`.
pub open spec fn joined(parts: Seq<Seq<char>>) -> Seq<char>
    decreases parts.len(),
{
    if parts.len() == 0 {
        Seq::empty()
    } else if parts.len() == 1 {
        parts[0]
    } else {
        joined(parts.drop_last()) + ", "@ + parts.last()
    }
}

/// The Julia literal of all cubes, in cube order.
pub open spec fn cubes_code(b: Built, syms: Seq<char>) -> Seq<char> {
    "["@ + joined(Seq::new(N_CUBES as nat, |i: int| face_code(face_of(b, syms, i)))) + "]"@
}

fn face_code_string(face: &Vec<char>) -> (r: String)
    ensures
        r@ == face_code(face@),
{
    let mut s = String::new();
    crate::catalog::push_str(&mut s, "Set{Char}([");
    let ghost s0 = s@;
    let mut j: usize = 0;
    assert(face@.take(0) =~= Seq::<char>::empty());
    while j < face.len()
        invariant
            j <= face.len(),
            s@ == s0 + quoted_list(face@.take(j as int)),
        decreases face.len() - j,
    {
        let ghost prev = s@;
        if j > 0 {
            crate::text::push_char(&mut s, ',');
        }
        crate::text::push_char(&mut s, '\'');
        crate::text::push_char(&mut s, face[j]);
        crate::text::push_char(&mut s, '\'');
        proof {
            let t = face@.take(j + 1);
            assert(t.drop_last() =~= face@.take(j as int));
            if j == 0 {
                assert(quoted_list(t) =~= quoted(face@[0]));
                assert(s@ =~= s0 + quoted_list(t));
            } else {
                assert(s@ =~= s0 + (quoted_list(face@.take(j as int)) + seq![','] + quoted(face@[j as int])));
            }
        }
        j += 1;
    }
    assert(face@.take(face.len() as int) =~= face@);
    crate::catalog::push_str(&mut s, "])");
    s
}

/// The cubes as a Julia literal `[Set{Char}([...]), ...]`, each face sorted.
pub fn cubes_as_code_string(b: &Built, alpha: &Alphabet) -> (r: String)
    requires
        table_ok(b.cubes_present@, alpha@.len()),
    ensures
        r@ == cubes_code(*b, alpha@),
{
    let ghost parts = Seq::new(N_CUBES as nat, |i: int| face_code(face_of(*b, alpha@, i)));
    let mut s = String::new();
    crate::text::push_char(&mut s, '[');
    let ghost s0 = s@;
    let mut i: usize = 0;
    assert(parts.take(0) =~= Seq::<Seq<char>>::empty());
    while i < N_CUBES
        invariant
            i <= N_CUBES,
            table_ok(b.cubes_present@, alpha@.len()),
            parts == Seq::new(N_CUBES as nat, |i: int| face_code(face_of(*b, alpha@, i))),
            s@ == s0 + joined(parts.take(i as int)),
        decreases N_CUBES - i,
    {
        let face = cube_face(b, alpha, i);
        proof {
            let syms = alpha@;
            let key = symbol_key(syms);
            let letters = row_letters(b.cubes_present@[i as int]@, syms.len() as int);
            let ord = choose|ord: Seq<usize>| ranked(ord, letters, key)
                && face@ == Seq::new(ord.len(), |j: int| syms[ord[j] as int]);
            let o2 = face_order(*b, syms, i as int);
            crate::sorting::lemma_sorted_unique(ord, o2, key);
            assert(face@ =~= face_of(*b, syms, i as int));
        }
        let code = face_code_string(&face);
        let ghost prev = s@;
        if i > 0 {
            crate::catalog::push_str(&mut s, ", ");
        }
        crate::catalog::push_str(&mut s, code.as_str());
        proof {
            let t = parts.take(i + 1);
            assert(t.drop_last() =~= parts.take(i as int));
            assert(t.last() == code@);
            if i == 0 {
                assert(joined(t) == code@);
                assert(s@ =~= s0 + joined(t));
            } else {
                assert(s@ =~= s0 + (joined(parts.take(i as int)) + ", "@ + code@));
            }
        }
        i += 1;
    }
    assert(parts.take(N_CUBES as int) =~= parts);
    crate::text::push_char(&mut s, ']');
    proof {
        reveal_strlit("[");
        reveal_strlit("]");
        assert(s@ =~= "["@ + joined(parts) + "]"@);
    }
    s
}

} // verus!
