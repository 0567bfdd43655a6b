//! Pareto fronts of multiplicity vectors.  A front keeps only the vectors
//! that no other kept vector dominates; inserting a vector keeps the front
//! an antichain and grows the set of vectors it covers by exactly the
//! vectors the new one dominates.

use vstd::prelude::*;

verus! {

/// `u` is at least as large as `v` in every coordinate of `u`.
pub open spec fn dominates(u: Seq<u8>, v: Seq<u8>) -> bool {
    forall|i: int| 0 <= i < u.len() ==> #[trigger] u[i] >= v[i]
}

/// Some vector of the front dominates `w`.
pub open spec fn covered(front: Seq<Seq<u8>>, w: Seq<u8>) -> bool {
    exists|k: int| 0 <= k < front.len() && #[trigger] dominates(front[k], w)
}

/// No vector of the front dominates another one.
pub open spec fn antichain(front: Seq<Seq<u8>>) -> bool {
    forall|i: int, j: int|
        0 <= i < front.len() && 0 <= j < front.len() && i != j ==> !#[trigger] dominates(front[i], front[j])
}

/// Every vector of the front has `n` coordinates.
pub open spec fn uniform(front: Seq<Seq<u8>>, n: nat) -> bool {
    forall|k: int| 0 <= k < front.len() ==> (#[trigger] front[k]).len() == n
}

/// The vectors of `front`, in order, that `v` does not dominate.
pub open spec fn undominated_by(front: Seq<Seq<u8>>, v: Seq<u8>) -> Seq<Seq<u8>>
    decreases front.len(),
{
    if front.len() == 0 {
        Seq::empty()
    } else {
        let prev = undominated_by(front.drop_last(), v);
        if dominates(v, front.last()) {
            prev
        } else {
            prev.push(front.last())
        }
    }
}

/// The front after inserting `v`: unchanged when `v` is already covered,
/// otherwise the vectors `v` does not dominate followed by `v`.
pub open spec fn front_insert(front: Seq<Seq<u8>>, v: Seq<u8>) -> Seq<Seq<u8>> {
    if covered(front, v) {
        front
    } else {
        undominated_by(front, v).push(v)
    }
}

/// The vectors of a front held as `Vec<Vec<u8>>`.
pub open spec fn vec_front(vecs: Seq<Vec<u8>>) -> Seq<Seq<u8>> {
    Seq::new(vecs.len(), |k: int| vecs[k]@)
}

/// The vectors of a front held as fixed-size arrays.
pub open spec fn array_front<const N: usize>(vecs: Seq<[u8; N]>) -> Seq<Seq<u8>> {
    Seq::new(vecs.len(), |k: int| vecs[k]@)
}

proof fn lemma_undominated_props(front: Seq<Seq<u8>>, v: Seq<u8>)
    ensures
        forall|k: int| 0 <= k < undominated_by(front, v).len() ==> exists|j: int|
            0 <= j < front.len() && #[trigger] undominated_by(front, v)[k] == front[j] && !dominates(v, front[j]),
        forall|j: int| 0 <= j < front.len() && !dominates(v, front[j]) ==> exists|k: int|
            0 <= k < undominated_by(front, v).len() && #[trigger] undominated_by(front, v)[k] == front[j],
        undominated_by(front, v).len() <= front.len(),
    decreases front.len(),
{
    if front.len() > 0 {
        let d = front.drop_last();
        lemma_undominated_props(d, v);
        let p = undominated_by(d, v);
        let u = undominated_by(front, v);
        assert forall|k: int| 0 <= k < u.len() implies exists|j: int|
            0 <= j < front.len() && #[trigger] u[k] == front[j] && !dominates(v, front[j]) by {
            if k < p.len() {
                assert(u[k] == p[k]);
                let j = choose|j: int| 0 <= j < d.len() && #[trigger] p[k] == d[j] && !dominates(v, d[j]);
                assert(front[j] == d[j]);
            } else {
                assert(u[k] == front.last());
                assert(front[front.len() - 1] == front.last());
            }
        }
        assert forall|j: int| 0 <= j < front.len() && !dominates(v, front[j]) implies exists|k: int|
            0 <= k < u.len() && #[trigger] u[k] == front[j] by {
            if j < d.len() {
                assert(front[j] == d[j]);
                let k = choose|k: int| 0 <= k < p.len() && #[trigger] p[k] == d[j];
                assert(u[k] == p[k]);
            } else {
                assert(front[j] == front.last());
                assert(u[u.len() - 1] == front.last());
            }
        }
    }
}

proof fn lemma_dominates_trans(a: Seq<u8>, b: Seq<u8>, c: Seq<u8>)
    requires
        dominates(a, b),
        dominates(b, c),
        a.len() == b.len(),
    ensures
        dominates(a, c),
{
    assert forall|i: int| 0 <= i < a.len() implies #[trigger] a[i] >= c[i] by {
        assert(a[i] >= b[i]);
        assert(b[i] >= c[i]);
    }
}

proof fn lemma_undominated_antichain(front: Seq<Seq<u8>>, v: Seq<u8>)
    requires
        antichain(front),
    ensures
        antichain(undominated_by(front, v)),
    decreases front.len(),
{
    if front.len() > 0 {
        let d = front.drop_last();
        assert(antichain(d)) by {
            assert forall|i: int, j: int| 0 <= i < d.len() && 0 <= j < d.len() && i != j implies !#[trigger] dominates(d[i], d[j]) by {
                assert(d[i] == front[i] && d[j] == front[j]);
            }
        }
        lemma_undominated_antichain(d, v);
        lemma_undominated_props(d, v);
        let p = undominated_by(d, v);
        let u = undominated_by(front, v);
        let last = front.last();
        if !dominates(v, last) {
            assert(u == p.push(last));
            assert forall|i: int, j: int| 0 <= i < u.len() && 0 <= j < u.len() && i != j implies !#[trigger] dominates(u[i], u[j]) by {
                if i < p.len() && j < p.len() {
                    assert(u[i] == p[i] && u[j] == p[j]);
                } else if i < p.len() {
                    let ii = choose|ii: int| 0 <= ii < d.len() && #[trigger] p[i] == d[ii] && !dominates(v, d[ii]);
                    assert(u[i] == front[ii]);
                    assert(u[j] == front[front.len() - 1]);
                } else {
                    let jj = choose|jj: int| 0 <= jj < d.len() && #[trigger] p[j] == d[jj] && !dominates(v, d[jj]);
                    assert(u[j] == front[jj]);
                    assert(u[i] == front[front.len() - 1]);
                }
            }
        }
    }
}

/// Inserting into a front keeps it an antichain of vectors of one length,
/// and afterwards it covers exactly what it covered before together with
/// what the inserted vector dominates.
pub proof fn law_front_insert(front: Seq<Seq<u8>>, v: Seq<u8>)
    requires
        uniform(front, v.len()),
        antichain(front),
    ensures
        uniform(front_insert(front, v), v.len()),
        antichain(front_insert(front, v)),
        forall|w: Seq<u8>| w.len() == v.len() ==> (covered(front_insert(front, v), w) <==> (covered(front, w) || dominates(v, w))),
{
    let r = front_insert(front, v);
    lemma_undominated_props(front, v);
    if covered(front, v) {
        let k = choose|k: int| 0 <= k < front.len() && #[trigger] dominates(front[k], v);
        assert forall|w: Seq<u8>| w.len() == v.len() && dominates(v, w) implies covered(front, w) by {
            lemma_dominates_trans(front[k], v, w);
        }
    } else {
        let u = undominated_by(front, v);
        assert(r == u.push(v));
        assert forall|k: int| 0 <= k < r.len() implies (#[trigger] r[k]).len() == v.len() by {
            if k < u.len() {
                let j = choose|j: int| 0 <= j < front.len() && #[trigger] u[k] == front[j] && !dominates(v, front[j]);
                assert(r[k] == u[k]);
            }
        }
        assert forall|i: int, j: int| 0 <= i < r.len() && 0 <= j < r.len() && i != j implies !#[trigger] dominates(r[i], r[j]) by {
            if i < u.len() && j < u.len() {
                lemma_undominated_antichain(front, v);
                assert(r[i] == u[i]);
                assert(r[j] == u[j]);
            } else if i < u.len() {
                let ii = choose|ii: int| 0 <= ii < front.len() && #[trigger] u[i] == front[ii] && !dominates(v, front[ii]);
                assert(r[i] == front[ii]);
                assert(r[j] == v);
                if dominates(r[i], r[j]) {
                    assert(dominates(front[ii], v));
                }
            } else {
                let jj = choose|jj: int| 0 <= jj < front.len() && #[trigger] u[j] == front[jj] && !dominates(v, front[jj]);
                assert(r[i] == v);
                assert(r[j] == front[jj]);
            }
        }
        assert forall|w: Seq<u8>| w.len() == v.len() implies (covered(r, w) <==> (covered(front, w) || dominates(v, w))) by {
            if covered(r, w) {
                let k = choose|k: int| 0 <= k < r.len() && #[trigger] dominates(r[k], w);
                if k < u.len() {
                    let j = choose|j: int| 0 <= j < front.len() && #[trigger] u[k] == front[j] && !dominates(v, front[j]);
                    assert(r[k] == u[k]);
                    assert(dominates(front[j], w));
                } else {
                    assert(r[k] == v);
                }
            }
            if covered(front, w) {
                let j = choose|j: int| 0 <= j < front.len() && #[trigger] dominates(front[j], w);
                if dominates(v, front[j]) {
                    lemma_dominates_trans(v, front[j], w);
                    assert(r[r.len() - 1] == v);
                    assert(dominates(r[r.len() - 1], w));
                } else {
                    let k = choose|k: int| 0 <= k < u.len() && #[trigger] u[k] == front[j];
                    assert(r[k] == u[k]);
                    assert(dominates(r[k], w));
                }
            }
            if dominates(v, w) {
                assert(r[r.len() - 1] == v);
                assert(dominates(r[r.len() - 1], w));
            }
        }
    }
}

/// `u` dominates `v` coordinate by coordinate over the length of `u`.
pub fn dominates_slice(x: &[u8], y: &[u8]) -> (r: bool)
    requires
        x@.len() <= y@.len(),
    ensures
        r == dominates(x@, y@),
{
    let mut i: usize = 0;
    while i < x.len()
        invariant
            i <= x@.len(),
            x@.len() <= y@.len(),
            forall|j: int| 0 <= j < i ==> #[trigger] x@[j] >= y@[j],
        decreases x.len() - i,
    {
        if x[i] < y[i] {
            return false;
        }
        i += 1;
    }
    true
}

/// Insert `v` into a front of vectors: nothing happens when a kept vector
/// dominates `v`; otherwise the vectors `v` dominates leave and `v` is
/// appended.
pub fn insert_maximal_vec(vecs: &mut Vec<Vec<u8>>, v: Vec<u8>)
    requires
        uniform(vec_front(old(vecs)@), v@.len()),
    ensures
        vec_front(final(vecs)@) == front_insert(vec_front(old(vecs)@), v@),
{
    let ghost f0 = vec_front(vecs@);
    let mut i: usize = 0;
    while i < vecs.len()
        invariant
            i <= vecs@.len(),
            vecs@ == old(vecs)@,
            f0 == vec_front(vecs@),
            uniform(f0, v@.len()),
            forall|k: int| 0 <= k < i ==> !#[trigger] dominates(f0[k], v@),
        decreases vecs.len() - i,
    {
        assert(f0[i as int] == vecs@[i as int]@);
        if dominates_slice(vecs[i].as_slice(), v.as_slice()) {
            assert(dominates(f0[i as int], v@));
            return;
        }
        i += 1;
    }
    assert(!covered(f0, v@));
    let mut keep: Vec<Vec<u8>> = Vec::new();
    let mut j: usize = 0;
    while j < vecs.len()
        invariant
            j <= vecs@.len(),
            vecs@ == old(vecs)@,
            f0 == vec_front(vecs@),
            uniform(f0, v@.len()),
            vec_front(keep@) == undominated_by(f0.take(j as int), v@),
        decreases vecs.len() - j,
    {
        let ghost kb = keep@;
        assert(f0.take(j + 1).drop_last() =~= f0.take(j as int));
        assert(f0.take(j + 1).last() == vecs@[j as int]@);
        if !dominates_slice(v.as_slice(), vecs[j].as_slice()) {
            keep.push(vecs[j].clone());
            assert(vec_front(keep@) =~= vec_front(kb).push(vecs@[j as int]@));
        }
        j += 1;
    }
    assert(f0.take(vecs@.len() as int) =~= f0);
    let ghost kb = keep@;
    keep.push(v);
    assert(vec_front(keep@) =~= vec_front(kb).push(v@));
    *vecs = keep;
}

/// Insert `v` into a front of fixed-size vectors; returns whether `v` was
/// added (it is not when a kept vector already dominates it).
pub fn insert_maximal_u8<const N: usize>(vecs: &mut Vec<[u8; N]>, v: [u8; N]) -> (added: bool)
    ensures
        array_front(final(vecs)@) == front_insert(array_front(old(vecs)@), v@),
        added == !covered(array_front(old(vecs)@), v@),
{
    let ghost f0 = array_front(vecs@);
    let mut i: usize = 0;
    while i < vecs.len()
        invariant
            i <= vecs@.len(),
            vecs@ == old(vecs)@,
            f0 == array_front(vecs@),
            forall|k: int| 0 <= k < i ==> !#[trigger] dominates(f0[k], v@),
        decreases vecs.len() - i,
    {
        let u: [u8; N] = vecs[i];
        assert(f0[i as int] == u@);
        if dominates_slice(u.as_slice(), v.as_slice()) {
            return false;
        }
        i += 1;
    }
    assert(!covered(f0, v@));
    let mut keep: Vec<[u8; N]> = Vec::new();
    let mut j: usize = 0;
    while j < vecs.len()
        invariant
            j <= vecs@.len(),
            vecs@ == old(vecs)@,
            f0 == array_front(vecs@),
            array_front(keep@) == undominated_by(f0.take(j as int), v@),
        decreases vecs.len() - j,
    {
        let ghost kb = keep@;
        let u: [u8; N] = vecs[j];
        assert(f0.take(j + 1).drop_last() =~= f0.take(j as int));
        assert(f0.take(j + 1).last() == u@);
        if !dominates_slice(v.as_slice(), u.as_slice()) {
            keep.push(u);
            assert(array_front(keep@) =~= array_front(kb).push(u@));
        }
        j += 1;
    }
    assert(f0.take(vecs@.len() as int) =~= f0);
    let ghost kb = keep@;
    keep.push(v);
    assert(array_front(keep@) =~= array_front(kb).push(v@));
    *vecs = keep;
    true
}

} // verus!
