//! Sorting of letters by a ranking key: a key is a triple compared
//! lexicographically, whose last component is the letter itself, so that
//! distinct letters never tie.

use vstd::prelude::*;

verus! {

/// Lexicographic order on ranking keys.
pub open spec fn lex3_lt(a: (u64, u64, usize), b: (u64, u64, usize)) -> bool {
    a.0 < b.0 || (a.0 == b.0 && (a.1 < b.1 || (a.1 == b.1 && a.2 < b.2)))
}

/// `b` is `a` reordered: `b[k] == a[p[k]]`, with `q` the inverse of `p`.
pub open spec fn reordered<T>(a: Seq<T>, b: Seq<T>, p: Seq<int>, q: Seq<int>) -> bool {
    &&& a.len() == b.len()
    &&& p.len() == a.len()
    &&& q.len() == a.len()
    &&& forall|k: int| 0 <= k < p.len() ==> 0 <= #[trigger] p[k] < p.len() && b[k] == a[p[k]] && q[p[k]] == k
    &&& forall|i: int| 0 <= i < q.len() ==> 0 <= #[trigger] q[i] < q.len() && p[q[i]] == i
}

/// Keys in increasing order.
pub open spec fn lex3_sorted(v: Seq<(u64, u64, usize)>) -> bool {
    forall|i: int, j: int| 0 <= i < j < v.len() ==> lex3_lt(v[i], v[j])
}

pub proof fn lemma_reordered_contains<T>(a: Seq<T>, b: Seq<T>, p: Seq<int>, q: Seq<int>)
    requires
        reordered(a, b, p, q),
    ensures
        forall|x: T| a.contains(x) <==> b.contains(x),
        a.no_duplicates() ==> b.no_duplicates(),
{
    assert forall|x: T| a.contains(x) <==> b.contains(x) by {
        if a.contains(x) {
            let i = choose|i: int| 0 <= i < a.len() && a[i] == x;
            assert(b[q[i]] == a[p[q[i]]]);
        }
        if b.contains(x) {
            let k = choose|k: int| 0 <= k < b.len() && b[k] == x;
            assert(b[k] == a[p[k]]);
        }
    }
    if a.no_duplicates() {
        assert forall|i: int, j: int| 0 <= i < b.len() && 0 <= j < b.len() && i != j implies b[i] != b[j] by {
            assert(b[i] == a[p[i]]);
            assert(b[j] == a[p[j]]);
            if p[i] == p[j] {
                assert(q[p[i]] == i);
            }
        }
    }
}

fn lex3_gt(x: (u64, u64, usize), y: (u64, u64, usize)) -> (r: bool)
    ensures
        r == lex3_lt(y, x),
{
    x.0 > y.0 || (x.0 == y.0 && (x.1 > y.1 || (x.1 == y.1 && x.2 > y.2)))
}

/// Sort ranking keys into increasing order; the keys must be distinct.
pub fn sort_lex3(v: &mut Vec<(u64, u64, usize)>)
    requires
        old(v)@.no_duplicates(),
    ensures
        lex3_sorted(final(v)@),
        exists|p: Seq<int>, q: Seq<int>| reordered(old(v)@, final(v)@, p, q),
{
    let ghost orig = v@;
    let ghost mut p: Seq<int> = Seq::new(v@.len(), |k: int| k);
    let ghost mut q: Seq<int> = Seq::new(v@.len(), |k: int| k);
    let n = v.len();
    if n == 0 {
        assert(reordered(orig, v@, p, q));
        return;
    }
    let mut i: usize = 1;
    while i < n
        invariant
            1 <= i <= n,
            n == v@.len(),
            orig == old(v)@,
            orig.no_duplicates(),
            forall|a: int, b: int| 0 <= a < b < i ==> lex3_lt(v@[a], v@[b]),
            reordered(orig, v@, p, q),
        decreases n - i,
    {
        proof {
            lemma_reordered_contains(orig, v@, p, q);
        }
        let mut j: usize = i;
        while j > 0 && lex3_gt(v[j - 1], v[j])
            invariant
                0 <= j <= i < n,
                n == v@.len(),
                orig == old(v)@,
                orig.no_duplicates(),
                v@.no_duplicates(),
                forall|a: int, b: int| 0 <= a < b <= i && a != j && b != j ==> lex3_lt(v@[a], v@[b]),
                forall|b: int| j < b <= i ==> lex3_lt(v@[j as int], v@[b]),
                forall|a: int, b: int| 0 <= a < j && j < b <= i ==> lex3_lt(v@[a], v@[b]),
                reordered(orig, v@, p, q),
            decreases j,
        {
            let t = v[j - 1];
            let w = v[j];
            v.set(j - 1, w);
            v.set(j, t);
            proof {
                let pa = p[j - 1];
                let pb = p[j as int];
                p = p.update(j - 1, pb).update(j as int, pa);
                q = q.update(pb, j - 1).update(pa, j as int);
                lemma_reordered_contains(orig, v@, p, q);
            }
            j -= 1;
        }
        proof {
            if j > 0 {
                assert(v@[j - 1] != v@[j as int]);
                assert(lex3_lt(v@[j - 1], v@[j as int]));
            }
            assert forall|a: int, b: int| 0 <= a < b <= i implies lex3_lt(v@[a], v@[b]) by {
                if b == j && a < j - 1 {
                    assert(lex3_lt(v@[a], v@[j - 1]));
                }
            }
        }
        i += 1;
    }
}

/// Two sequences of distinct letters with the same letters, both in
/// increasing order of `key`, where `key` never ties distinct letters, are
/// equal.
pub proof fn lemma_sorted_unique(a: Seq<usize>, b: Seq<usize>, key: spec_fn(usize) -> (u64, u64, usize))
    requires
        forall|i: int, j: int| 0 <= i < j < a.len() ==> lex3_lt(key(a[i]), key(a[j])),
        forall|i: int, j: int| 0 <= i < j < b.len() ==> lex3_lt(key(b[i]), key(b[j])),
        forall|x: usize| a.contains(x) <==> b.contains(x),
    ensures
        a == b,
    decreases a.len(),
{
    if a.len() == 0 {
        if b.len() > 0 {
            assert(b.contains(b[0]));
        }
        assert(a =~= b);
    } else {
        assert(a.contains(a[0]));
        assert(b.len() > 0);
        assert(b.contains(b[0]));
        let t = choose|t: int| 0 <= t < b.len() && b[t] == a[0];
        let s = choose|s: int| 0 <= s < a.len() && a[s] == b[0];
        if t > 0 {
            assert(lex3_lt(key(b[0]), key(b[t])));
            if s > 0 {
                assert(lex3_lt(key(a[0]), key(a[s])));
                assert(false);
            } else {
                assert(lex3_lt(key(b[0]), key(b[0])));
                assert(false);
            }
        }
        assert(a[0] == b[0]);
        let a1 = a.drop_first();
        let b1 = b.drop_first();
        assert forall|x: usize| a1.contains(x) <==> b1.contains(x) by {
            if a1.contains(x) {
                let i = choose|i: int| 0 <= i < a1.len() && a1[i] == x;
                assert(a[i + 1] == x);
                assert(lex3_lt(key(a[0]), key(a[i + 1])));
                assert(b.contains(x));
                let k = choose|k: int| 0 <= k < b.len() && b[k] == x;
                if k == 0 {
                    assert(lex3_lt(key(x), key(x)));
                }
                assert(b1[k - 1] == x);
            }
            if b1.contains(x) {
                let i = choose|i: int| 0 <= i < b1.len() && b1[i] == x;
                assert(b[i + 1] == x);
                assert(lex3_lt(key(b[0]), key(b[i + 1])));
                assert(a.contains(x));
                let k = choose|k: int| 0 <= k < a.len() && a[k] == x;
                if k == 0 {
                    assert(lex3_lt(key(x), key(x)));
                }
                assert(a1[k - 1] == x);
            }
        }
        assert forall|i: int, j: int| 0 <= i < j < a1.len() implies lex3_lt(key(a1[i]), key(a1[j])) by {
            assert(a1[i] == a[i + 1] && a1[j] == a[j + 1]);
        }
        assert forall|i: int, j: int| 0 <= i < j < b1.len() implies lex3_lt(key(b1[i]), key(b1[j])) by {
            assert(b1[i] == b[i + 1] && b1[j] == b[j + 1]);
        }
        lemma_sorted_unique(a1, b1, key);
        assert(a =~= b) by {
            assert forall|i: int| 0 <= i < a.len() implies a[i] == b[i] by {
                if i > 0 {
                    assert(a[i] == a1[i - 1]);
                    assert(b[i] == b1[i - 1]);
                }
            }
        }
    }
}

} // verus!
