//! The tokens of an alphabet as an ordered set: each token once, in the
//! lexicographic order of `String`, searched by bisection.

use vstd::prelude::*;
use crate::catalog::views;
use crate::lexorder::{chars_lt, char_seq_lt, lemma_lt_asymmetric, lemma_lt_irreflexive, lemma_lt_total,
    lemma_lt_transitive, strictly_sorted};
use crate::text::{chars_equal, chars_of};

verus! {

broadcast use vstd::string::group_string_axioms;

/// `s` holds exactly the elements of `ts`, each once, in increasing order.
pub open spec fn lex_sorted_of(s: Seq<Seq<char>>, ts: Seq<Seq<char>>) -> bool {
    &&& strictly_sorted(s)
    &&& forall|x: Seq<char>| s.contains(x) <==> ts.contains(x)
}

/// The elements of `ts` in increasing order, each once.
pub open spec fn lex_order(ts: Seq<Seq<char>>) -> Seq<Seq<char>> {
    choose|s: Seq<Seq<char>>| lex_sorted_of(s, ts)
}

/// Two increasing sequences with the same elements are equal.
pub proof fn lemma_sorted_unique(s1: Seq<Seq<char>>, s2: Seq<Seq<char>>)
    requires
        strictly_sorted(s1),
        strictly_sorted(s2),
        forall|x: Seq<char>| s1.contains(x) <==> s2.contains(x),
    ensures
        s1 == s2,
    decreases s1.len(),
{
    if s1.len() == 0 {
        if s2.len() > 0 {
            assert(s2.contains(s2[0]));
        }
        assert(s1 =~= s2);
    } else {
        assert(s1.contains(s1[0]));
        assert(s2.len() > 0);
        let a = s1[0];
        let b = s2[0];
        assert(s2.contains(a));
        assert(s1.contains(b));
        let k = choose|k: int| 0 <= k < s2.len() && s2[k] == a;
        let m = choose|m: int| 0 <= m < s1.len() && s1[m] == b;
        if a != b {
            if k > 0 {
                assert(char_seq_lt(b, a));
            }
            if m > 0 {
                assert(char_seq_lt(a, b));
            }
            if k > 0 && m > 0 {
                lemma_lt_asymmetric(a, b);
            }
        }
        let t1 = s1.drop_first();
        let t2 = s2.drop_first();
        assert forall|x: Seq<char>| t1.contains(x) <==> t2.contains(x) by {
            if t1.contains(x) {
                let p = choose|p: int| 0 <= p < t1.len() && t1[p] == x;
                assert(s1[p + 1] == x);
                assert(char_seq_lt(a, x));
                lemma_lt_irreflexive(a);
                assert(s1.contains(x));
                let q = choose|q: int| 0 <= q < s2.len() && s2[q] == x;
                assert(q != 0);
                assert(t2[q - 1] == x);
            }
            if t2.contains(x) {
                let p = choose|p: int| 0 <= p < t2.len() && t2[p] == x;
                assert(s2[p + 1] == x);
                assert(char_seq_lt(b, x));
                lemma_lt_irreflexive(b);
                assert(s2.contains(x));
                let q = choose|q: int| 0 <= q < s1.len() && s1[q] == x;
                assert(q != 0);
                assert(t1[q - 1] == x);
            }
        }
        assert forall|i: int, j: int| 0 <= i < j < t1.len() implies char_seq_lt(#[trigger] t1[i], #[trigger] t1[j]) by {
            assert(t1[i] == s1[i + 1] && t1[j] == s1[j + 1]);
        }
        assert forall|i: int, j: int| 0 <= i < j < t2.len() implies char_seq_lt(#[trigger] t2[i], #[trigger] t2[j]) by {
            assert(t2[i] == s2[i + 1] && t2[j] == s2[j + 1]);
        }
        lemma_sorted_unique(t1, t2);
        assert(s1 =~= seq![a] + t1);
        assert(s2 =~= seq![b] + t2);
    }
}

/// Where `c` stands in an increasing list: `Ok` with its index, or `Err`
/// with the index at which it would be inserted.
pub(crate) fn locate(v: &Vec<String>, c: &Vec<char>) -> (r: Result<usize, usize>)
    requires
        strictly_sorted(views(v@)),
    ensures
        match r {
            Ok(k) => k < v.len() && v@[k as int]@ == c@,
            Err(k) => k <= v.len()
                && (forall|j: int| 0 <= j < k ==> char_seq_lt(#[trigger] v@[j]@, c@))
                && (forall|j: int| k <= j < v.len() ==> char_seq_lt(c@, #[trigger] v@[j]@)),
        },
{
    let ghost vs = views(v@);
    let mut lo: usize = 0;
    let mut hi: usize = v.len();
    while lo < hi
        invariant
            vs == views(v@),
            strictly_sorted(vs),
            lo <= hi <= v.len(),
            forall|j: int| 0 <= j < lo ==> char_seq_lt(#[trigger] v@[j]@, c@),
            forall|j: int| hi <= j < v.len() ==> char_seq_lt(c@, #[trigger] v@[j]@),
        decreases hi - lo,
    {
        let mid = lo + (hi - lo) / 2;
        let m = chars_of(v[mid].as_str());
        if chars_equal(&m, c) {
            return Ok(mid);
        }
        if chars_lt(&m, c) {
            proof {
                assert forall|j: int| 0 <= j < mid + 1 implies char_seq_lt(#[trigger] v@[j]@, c@) by {
                    if j < mid {
                        assert(vs[j] == v@[j]@ && vs[mid as int] == v@[mid as int]@);
                        lemma_lt_transitive(v@[j]@, v@[mid as int]@, c@);
                    }
                }
            }
            lo = mid + 1;
        } else {
            proof {
                lemma_lt_total(m@, c@);
                assert forall|j: int| mid <= j < v.len() implies char_seq_lt(c@, #[trigger] v@[j]@) by {
                    if j > mid {
                        assert(vs[j] == v@[j]@ && vs[mid as int] == v@[mid as int]@);
                        lemma_lt_transitive(c@, v@[mid as int]@, v@[j]@);
                    }
                }
            }
            hi = mid;
        }
    }
    Err(lo)
}

/// Whether `c` is one of the tokens of an increasing list.
pub fn has_token(v: &Vec<String>, c: &Vec<char>) -> (r: bool)
    requires
        strictly_sorted(views(v@)),
    ensures
        r == views(v@).contains(c@),
{
    match locate(v, c) {
        Ok(k) => {
            assert(views(v@)[k as int] == c@);
            true
        },
        Err(k) => {
            proof {
                if views(v@).contains(c@) {
                    let j = choose|j: int| 0 <= j < views(v@).len() && views(v@)[j] == c@;
                    lemma_lt_irreflexive(c@);
                    assert(v@[j]@ == c@);
                }
            }
            false
        },
    }
}

/// Whether the string `s` is one of the tokens of an increasing list.
pub fn has_str(v: &Vec<String>, s: &str) -> (r: bool)
    requires
        strictly_sorted(views(v@)),
    ensures
        r == views(v@).contains(s@),
{
    let c = chars_of(s);
    has_token(v, &c)
}

/// No element is followed by a smaller one.
pub open spec fn sorted_views(s: Seq<Seq<char>>) -> bool {
    forall|i: int, j: int| 0 <= i < j < s.len() ==> !char_seq_lt(#[trigger] s[j], #[trigger] s[i])
}

proof fn lemma_not_less_transitive(a: Seq<char>, b: Seq<char>, c: Seq<char>)
    requires
        !char_seq_lt(b, a),
        !char_seq_lt(c, b),
    ensures
        !char_seq_lt(c, a),
{
    if char_seq_lt(c, a) {
        if a != b && b != c {
            lemma_lt_total(a, b);
            lemma_lt_total(b, c);
            lemma_lt_transitive(a, b, c);
            lemma_lt_transitive(c, a, b);
            lemma_lt_irreflexive(b);
        }
    }
}

proof fn lemma_ms_push<T>(s: Seq<T>, e: T)
    ensures
        s.push(e).to_multiset() == s.to_multiset().insert(e),
{
    broadcast use vstd::seq_lib::group_to_multiset_ensures;
}

proof fn lemma_ms_insert<T>(s: Seq<T>, i: int, e: T)
    requires
        0 <= i <= s.len(),
    ensures
        s.insert(i, e).to_multiset() == s.to_multiset().insert(e),
{
    broadcast use vstd::seq_lib::group_to_multiset_ensures;
}

proof fn lemma_push_views(v: Seq<String>, e: String)
    ensures
        views(v.push(e)) == views(v).push(e@),
{
    assert(views(v.push(e)) =~= views(v).push(e@));
}

/// Merges two sorted runs of strings.
fn merge_strings(a: &Vec<String>, b: &Vec<String>) -> (out: Vec<String>)
    requires
        sorted_views(views(a@)),
        sorted_views(views(b@)),
    ensures
        sorted_views(views(out@)),
        views(out@).to_multiset() == (views(a@) + views(b@)).to_multiset(),
{
    broadcast use vstd::seq_lib::group_to_multiset_ensures;
    let ghost av = views(a@);
    let ghost bv = views(b@);
    let mut out: Vec<String> = Vec::new();
    let mut i: usize = 0;
    let mut j: usize = 0;
    assert(av.take(0) + bv.take(0) =~= Seq::<Seq<char>>::empty());
    assert(views(out@) =~= Seq::<Seq<char>>::empty());
    while i < a.len() || j < b.len()
        invariant
            av == views(a@),
            bv == views(b@),
            sorted_views(av),
            sorted_views(bv),
            i <= a.len(),
            j <= b.len(),
            sorted_views(views(out@)),
            views(out@).to_multiset() == (av.take(i as int) + bv.take(j as int)).to_multiset(),
            out@.len() > 0 && i < a.len() ==> !char_seq_lt(av[i as int], views(out@).last()),
            out@.len() > 0 && j < b.len() ==> !char_seq_lt(bv[j as int], views(out@).last()),
        decreases a.len() + b.len() - i - j,
    {
        let ghost ov = views(out@);
        let take_a = if j >= b.len() {
            true
        } else if i >= a.len() {
            false
        } else {
            let cb = chars_of(b[j].as_str());
            let ca = chars_of(a[i].as_str());
            !chars_lt(&cb, &ca)
        };
        let e = if take_a { a[i].clone() } else { b[j].clone() };
        let ghost ev = e@;
        proof {
            if take_a {
                assert(ev == av[i as int]);
            } else {
                assert(ev == bv[j as int]);
            }
        }
        let ghost oo = out@;
        out.push(e);
        proof {
            lemma_push_views(oo, e);
            assert(views(out@) == ov.push(ev));
            assert forall|p: int, q: int| 0 <= p < q < views(out@).len() implies
                !char_seq_lt(#[trigger] views(out@)[q], #[trigger] views(out@)[p]) by {
                if q == views(out@).len() - 1 && ov.len() > 0 {
                    if p < ov.len() - 1 {
                        assert(!char_seq_lt(ov.last(), ov[p]));
                    } else {
                        lemma_lt_irreflexive(ov[p]);
                    }
                    lemma_not_less_transitive(ov[p], ov.last(), ev);
                }
            }
        }
        if take_a {
            proof {
                assert(av.take(i + 1) =~= av.take(i as int).push(ev));
                assert(av.take(i + 1) + bv.take(j as int) =~= (av.take(i as int) + bv.take(j as int)).insert(i as int, ev));
                lemma_ms_push(ov, ev);
                lemma_ms_insert(av.take(i as int) + bv.take(j as int), i as int, ev);
                if i + 1 < a.len() {
                    assert(!char_seq_lt(av[i + 1], av[i as int]));
                }
            }
            i += 1;
        } else {
            proof {
                assert(bv.take(j + 1) =~= bv.take(j as int).push(ev));
                assert(av.take(i as int) + bv.take(j + 1) =~= (av.take(i as int) + bv.take(j as int)).push(ev));
                lemma_ms_push(ov, ev);
                lemma_ms_push(av.take(i as int) + bv.take(j as int), ev);
                if i < a.len() {
                    assert(char_seq_lt(ev, av[i as int]));
                    lemma_lt_asymmetric(ev, av[i as int]);
                }
                if j + 1 < b.len() {
                    assert(!char_seq_lt(bv[j + 1], bv[j as int]));
                }
            }
            j += 1;
        }
    }
    assert(av.take(i as int) =~= av);
    assert(bv.take(j as int) =~= bv);
    out
}

/// Sorts `v[lo..hi]` by the order of `String`.
fn sort_strings(v: &Vec<String>, lo: usize, hi: usize) -> (out: Vec<String>)
    requires
        lo <= hi <= v.len(),
    ensures
        sorted_views(views(out@)),
        views(out@).to_multiset() == views(v@).subrange(lo as int, hi as int).to_multiset(),
    decreases hi - lo,
{
    if hi - lo == 0 {
        let out: Vec<String> = Vec::new();
        assert(views(out@) =~= views(v@).subrange(lo as int, hi as int));
        out
    } else if hi - lo == 1 {
        let mut out: Vec<String> = Vec::new();
        out.push(v[lo].clone());
        assert(views(out@) =~= views(v@).subrange(lo as int, hi as int));
        out
    } else {
        let mid = lo + (hi - lo) / 2;
        let a = sort_strings(v, lo, mid);
        let b = sort_strings(v, mid, hi);
        let out = merge_strings(&a, &b);
        proof {
            let sl = views(v@).subrange(lo as int, mid as int);
            let sr = views(v@).subrange(mid as int, hi as int);
            assert(views(v@).subrange(lo as int, hi as int) =~= sl + sr);
            vstd::seq_lib::lemma_multiset_commutative(sl, sr);
            vstd::seq_lib::lemma_multiset_commutative(views(a@), views(b@));
        }
        out
    }
}

/// The tokens, each once, in increasing order.
pub fn token_order(toks: &Vec<String>) -> (r: Vec<String>)
    ensures
        views(r@) == lex_order(views(toks@)),
        lex_sorted_of(views(r@), views(toks@)),
{
    broadcast use vstd::seq_lib::group_to_multiset_ensures;
    let ghost ts = views(toks@);
    let sorted = sort_strings(toks, 0, toks.len());
    let ghost sv = views(sorted@);
    assert(ts.subrange(0, toks.len() as int) =~= ts);
    let mut out: Vec<String> = Vec::new();
    let mut i: usize = 0;
    while i < sorted.len()
        invariant
            sv == views(sorted@),
            sorted_views(sv),
            i <= sorted.len(),
            strictly_sorted(views(out@)),
            (out@.len() > 0) == (i > 0),
            i > 0 ==> views(out@).last() == sv[i - 1],
            forall|x: Seq<char>| views(out@).contains(x) <==> sv.take(i as int).contains(x),
        decreases sorted.len() - i,
    {
        let ghost ov = views(out@);
        let ghost t0 = sv.take(i as int);
        let ghost t1 = sv.take(i + 1);
        assert(t1 =~= t0.push(sv[i as int]));
        let repeat = out.len() > 0 && {
            let last = chars_of(out[out.len() - 1].as_str());
            let cur = chars_of(sorted[i].as_str());
            chars_equal(&last, &cur)
        };
        if repeat {
            proof {
                assert forall|x: Seq<char>| views(out@).contains(x) <==> t1.contains(x) by {
                    if t1.contains(x) {
                        let p = choose|p: int| 0 <= p < t1.len() && t1[p] == x;
                        if p < i {
                            assert(t0[p] == x);
                        } else {
                            assert(ov[ov.len() - 1] == x);
                        }
                    }
                    if t0.contains(x) {
                        let p = choose|p: int| 0 <= p < t0.len() && t0[p] == x;
                        assert(t1[p] == x);
                    }
                }
            }
        } else {
            proof {
                assert forall|x: Seq<char>| #[trigger] ov.contains(x) <==> t0.contains(x) by {
                    assert(views(out@).contains(x) <==> sv.take(i as int).contains(x));
                }
            }
            let ghost oo = out@;
            out.push(sorted[i].clone());
            proof {
                lemma_push_views(oo, sorted@[i as int]);
                assert(views(out@) == ov.push(sv[i as int]));
                if i > 0 {
                    assert(!char_seq_lt(sv[i as int], sv[i - 1]));
                    lemma_lt_total(sv[i - 1], sv[i as int]);
                }
                assert forall|p: int, q: int| 0 <= p < q < views(out@).len() implies
                    char_seq_lt(#[trigger] views(out@)[p], #[trigger] views(out@)[q]) by {
                    if q == views(out@).len() - 1 && p < ov.len() - 1 {
                        lemma_lt_transitive(ov[p], ov.last(), sv[i as int]);
                    }
                }
                assert forall|x: Seq<char>| views(out@).contains(x) <==> t1.contains(x) by {
                    if views(out@).contains(x) {
                        let p = choose|p: int| 0 <= p < views(out@).len() && views(out@)[p] == x;
                        if p < ov.len() {
                            assert(ov[p] == x);
                            assert(ov.contains(x));
                            assert(t0.contains(x));
                            let q = choose|q: int| 0 <= q < t0.len() && t0[q] == x;
                            assert(t1[q] == x);
                        } else {
                            assert(t1[i as int] == x);
                        }
                    }
                    if t1.contains(x) {
                        let p = choose|p: int| 0 <= p < t1.len() && t1[p] == x;
                        if p < i {
                            assert(t0[p] == x);
                            assert(ov.contains(x));
                            let q = choose|q: int| 0 <= q < ov.len() && ov[q] == x;
                            assert(views(out@)[q] == x);
                        } else {
                            assert(views(out@)[ov.len() as int] == x);
                        }
                    }
                }
            }
        }
        i += 1;
    }
    proof {
        assert(sv.take(i as int) =~= sv);
        assert forall|x: Seq<char>| views(out@).contains(x) <==> ts.contains(x) by {
            assert(sv.contains(x) <==> sv.to_multiset().count(x) > 0);
            assert(ts.contains(x) <==> ts.to_multiset().count(x) > 0);
        }
        assert(lex_sorted_of(views(out@), ts));
        lemma_sorted_unique(views(out@), lex_order(ts));
    }
    out
}

} // verus!
