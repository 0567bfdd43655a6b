//! The constraint report of a corpus: for each letter the words with the
//! most copies of it; for each stored letter pair and triple the maximal
//! requirement vectors with the words that meet them; and the words ranked
//! by how often they alone, or at all, supply a constraint.

use vstd::prelude::*;
use crate::alphabet::{letter_counts, Alphabet};
use crate::catalog::views;
use crate::pareto::{array_front, vec_front};
use crate::stats::{max_count, word_counts};
use crate::lexorder::{char_seq_lt, lemma_lt_irreflexive, lemma_lt_total, lemma_lt_transitive,
    strictly_sorted, chars_lt};
use crate::text::chars_of;
use crate::token_set::{lex_order, lex_sorted_of, locate, token_order};

verus! {

broadcast use vstd::string::group_string_axioms;

/* ------------------------------ letter counts ------------------------------ */

/// The letter counts of each word.
pub fn count_table(alpha: &Alphabet, words: &Vec<String>) -> (t: Vec<Vec<usize>>)
    ensures
        t@.len() == words@.len(),
        forall|k: int| 0 <= k < t@.len() ==> (#[trigger] t@[k])@ == word_counts(alpha@, words@[k]@),
{
    let mut t: Vec<Vec<usize>> = Vec::new();
    let mut k: usize = 0;
    while k < words.len()
        invariant
            k <= words.len(),
            t@.len() == k,
            forall|q: int| 0 <= q < k ==> (#[trigger] t@[q])@ == word_counts(alpha@, words@[q]@),
        decreases words.len() - k,
    {
        let c = letter_counts(alpha, words[k].as_str());
        assert(c@ =~= word_counts(alpha@, words@[k as int]@));
        t.push(c);
        k += 1;
    }
    t
}

/* --------------------------------- leaders --------------------------------- */

/// The words, in order, with exactly `m > 0` copies of letter `i`.
pub open spec fn at_count(syms: Seq<char>, ws: Seq<String>, i: int, m: int) -> Seq<Seq<char>>
    decreases ws.len(),
{
    if ws.len() == 0 {
        Seq::empty()
    } else {
        let p = at_count(syms, ws.drop_last(), i, m);
        if m > 0 && word_counts(syms, ws.last()@)[i] as int == m { p.push(ws.last()@) } else { p }
    }
}

/// For each letter: the most copies of it in one word, and the words (each
/// once, in increasing order) with that many copies; no words when no word
/// has the letter.
pub fn letter_leaders(alpha: &Alphabet, words: &Vec<String>) -> (r: Vec<(usize, Vec<String>)>)
    ensures
        r@.len() == alpha@.len(),
        forall|i: int| 0 <= i < r@.len() ==> (#[trigger] r@[i]).0 as int == max_count(alpha@, words@, i),
        forall|i: int| 0 <= i < r@.len() ==> views((#[trigger] r@[i]).1@)
            == lex_order(at_count(alpha@, words@, i, max_count(alpha@, words@, i))),
{
    let ghost syms = alpha@;
    let n = crate::alphabet::n_letters(alpha);
    let table = count_table(alpha, words);
    let mut r: Vec<(usize, Vec<String>)> = Vec::new();
    let mut i: usize = 0;
    while i < n
        invariant
            n == syms.len(),
            syms == alpha@,
            table@.len() == words@.len(),
            forall|k: int| 0 <= k < table@.len() ==> (#[trigger] table@[k])@ == word_counts(syms, words@[k]@),
            i <= n,
            r@.len() == i,
            forall|q: int| 0 <= q < i ==> (#[trigger] r@[q]).0 as int == max_count(syms, words@, q),
            forall|q: int| 0 <= q < i ==> views((#[trigger] r@[q]).1@)
                == lex_order(at_count(syms, words@, q, max_count(syms, words@, q))),
        decreases n - i,
    {
        let mut m: usize = 0;
        let mut j: usize = 0;
        while j < table.len()
            invariant
                n == syms.len(),
                i < n,
                table@.len() == words@.len(),
                forall|k: int| 0 <= k < table@.len() ==> (#[trigger] table@[k])@ == word_counts(syms, words@[k]@),
                j <= table.len(),
                m as int == max_count(syms, words@.take(j as int), i as int),
            decreases table.len() - j,
        {
            assert(words@.take(j + 1).drop_last() =~= words@.take(j as int));
            assert(words@.take(j + 1).last() == words@[j as int]);
            let c = table[j][i];
            if c > m {
                m = c;
            }
            j += 1;
        }
        assert(words@.take(j as int) =~= words@);
        let mut sel: Vec<String> = Vec::new();
        let mut j: usize = 0;
        while j < table.len()
            invariant
                n == syms.len(),
                i < n,
                table@.len() == words@.len(),
                forall|k: int| 0 <= k < table@.len() ==> (#[trigger] table@[k])@ == word_counts(syms, words@[k]@),
                j <= table.len(),
                views(sel@) == at_count(syms, words@.take(j as int), i as int, m as int),
            decreases table.len() - j,
        {
            assert(words@.take(j + 1).drop_last() =~= words@.take(j as int));
            assert(words@.take(j + 1).last() == words@[j as int]);
            if m > 0 && table[j][i] == m {
                let ghost sv = views(sel@);
                sel.push(words[j].clone());
                assert(views(sel@) =~= sv.push(words@[j as int]@));
            }
            j += 1;
        }
        assert(words@.take(j as int) =~= words@);
        let leaders = token_order(&sel);
        r.push((m, leaders));
        i += 1;
    }
    r
}

/* ----------------------------- requirement rows ----------------------------- */

/// `q` asks at least as much as `m` in every position.
pub open spec fn covers(q: Seq<u8>, m: Seq<u8>) -> bool {
    q.len() == m.len() && forall|t: int| 0 <= t < m.len() ==> q[t] >= m[t]
}

/// `m` is one of `vs` and no other vector of `vs` covers it.
pub open spec fn maximal_in(vs: Seq<Seq<u8>>, m: Seq<u8>) -> bool {
    vs.contains(m) && forall|q: Seq<u8>| #[trigger] vs.contains(q) && q != m ==> !covers(q, m)
}

/// The sum of a requirement vector.
pub open spec fn total(v: Seq<u8>) -> int
    decreases v.len(),
{
    if v.len() == 0 {
        0
    } else {
        total(v.drop_last()) + v.last() as int
    }
}

/// `a` is lexicographically greater than `b`.
pub open spec fn lex_greater(a: Seq<u8>, b: Seq<u8>) -> bool
    decreases a.len(),
{
    if a.len() == 0 {
        false
    } else if b.len() == 0 {
        true
    } else if a[0] > b[0] {
        true
    } else if a[0] == b[0] {
        lex_greater(a.drop_first(), b.drop_first())
    } else {
        false
    }
}

/// Report order of requirement vectors: larger sum first, then
/// lexicographically larger first.
pub open spec fn row_before(a: Seq<u8>, b: Seq<u8>) -> bool {
    total(a) > total(b) || (total(a) == total(b) && lex_greater(a, b))
}

pub open spec fn rows_in_order(r: Seq<Seq<u8>>) -> bool {
    forall|i: int, j: int| 0 <= i < j < r.len() ==> row_before(#[trigger] r[i], #[trigger] r[j])
}

proof fn lemma_lex_irreflexive(a: Seq<u8>)
    ensures
        !lex_greater(a, a),
    decreases a.len(),
{
    if a.len() > 0 {
        lemma_lex_irreflexive(a.drop_first());
    }
}

proof fn lemma_lex_transitive(a: Seq<u8>, b: Seq<u8>, c: Seq<u8>)
    requires
        lex_greater(a, b),
        lex_greater(b, c),
    ensures
        lex_greater(a, c),
    decreases a.len(),
{
    if a.len() > 0 && b.len() > 0 && c.len() > 0 {
        if a[0] == b[0] && b[0] == c[0] {
            lemma_lex_transitive(a.drop_first(), b.drop_first(), c.drop_first());
        }
    }
}

proof fn lemma_lex_total(a: Seq<u8>, b: Seq<u8>)
    requires
        a != b,
    ensures
        lex_greater(a, b) || lex_greater(b, a),
    decreases a.len(),
{
    if a.len() > 0 && b.len() > 0 {
        if a[0] == b[0] {
            if a.drop_first() == b.drop_first() {
                assert(a =~= seq![a[0]] + a.drop_first());
                assert(b =~= seq![b[0]] + b.drop_first());
            }
            lemma_lex_total(a.drop_first(), b.drop_first());
        }
    } else if a.len() == 0 && b.len() == 0 {
        assert(a =~= b);
    }
}

proof fn lemma_row_order(a: Seq<u8>, b: Seq<u8>, c: Seq<u8>)
    ensures
        !row_before(a, a),
        a != b ==> row_before(a, b) || row_before(b, a),
        row_before(a, b) && row_before(b, c) ==> row_before(a, c),
        row_before(a, b) ==> !row_before(b, a),
{
    lemma_lex_irreflexive(a);
    if a != b {
        lemma_lex_total(a, b);
    }
    if row_before(a, b) && row_before(b, c) && total(a) == total(b) && total(b) == total(c) {
        lemma_lex_transitive(a, b, c);
    }
    if row_before(a, b) && row_before(b, a) {
        lemma_lex_transitive(a, b, a);
    }
}

fn copy_bytes(v: &Vec<u8>) -> (r: Vec<u8>)
    ensures
        r@ == v@,
{
    let mut r: Vec<u8> = Vec::new();
    let mut i: usize = 0;
    while i < v.len()
        invariant
            i <= v.len(),
            r@ == v@.take(i as int),
        decreases v.len() - i,
    {
        r.push(v[i]);
        assert(r@ =~= v@.take(i + 1));
        i += 1;
    }
    assert(v@.take(i as int) =~= v@);
    r
}

fn bytes_equal(a: &Vec<u8>, b: &Vec<u8>) -> (r: bool)
    ensures
        r == (a@ == b@),
{
    if a.len() != b.len() {
        return false;
    }
    let mut i: usize = 0;
    while i < a.len()
        invariant
            a.len() == b.len(),
            i <= a.len(),
            forall|t: int| 0 <= t < i ==> a@[t] == b@[t],
        decreases a.len() - i,
    {
        if a[i] != b[i] {
            return false;
        }
        i += 1;
    }
    assert(a@ =~= b@);
    true
}

fn covers_exec(q: &Vec<u8>, m: &Vec<u8>) -> (r: bool)
    ensures
        r == covers(q@, m@),
{
    if q.len() != m.len() {
        return false;
    }
    let mut i: usize = 0;
    while i < m.len()
        invariant
            q.len() == m.len(),
            i <= m.len(),
            forall|t: int| 0 <= t < i ==> q@[t] >= m@[t],
        decreases m.len() - i,
    {
        if q[i] < m[i] {
            return false;
        }
        i += 1;
    }
    true
}

fn total_exec(v: &Vec<u8>) -> (r: u128)
    ensures
        r as int == total(v@),
{
    let mut s: u128 = 0;
    let mut i: usize = 0;
    while i < v.len()
        invariant
            i <= v.len(),
            s as int == total(v@.take(i as int)),
            s <= 255 * i,
        decreases v.len() - i,
    {
        assert(v@.take(i + 1).drop_last() =~= v@.take(i as int));
        s = s + v[i] as u128;
        i += 1;
    }
    assert(v@.take(i as int) =~= v@);
    s
}

fn lex_greater_exec(a: &Vec<u8>, b: &Vec<u8>) -> (r: bool)
    ensures
        r == lex_greater(a@, b@),
{
    let mut i: usize = 0;
    assert(a@.skip(0) =~= a@);
    assert(b@.skip(0) =~= b@);
    while i < a.len() && i < b.len()
        invariant
            i <= a.len(),
            i <= b.len(),
            lex_greater(a@, b@) == lex_greater(a@.skip(i as int), b@.skip(i as int)),
        decreases a.len() - i,
    {
        if a[i] > b[i] {
            return true;
        }
        if a[i] != b[i] {
            return false;
        }
        assert(a@.skip(i as int).drop_first() =~= a@.skip(i + 1));
        assert(b@.skip(i as int).drop_first() =~= b@.skip(i + 1));
        i += 1;
    }
    i < a.len()
}

fn row_before_exec(a: &Vec<u8>, b: &Vec<u8>) -> (r: bool)
    ensures
        r == row_before(a@, b@),
{
    let ta = total_exec(a);
    let tb = total_exec(b);
    ta > tb || (ta == tb && lex_greater_exec(a, b))
}

/// The maximal vectors of `vs`, each once, in report order.
pub fn requirement_rows(vs: &Vec<Vec<u8>>) -> (r: Vec<Vec<u8>>)
    ensures
        rows_in_order(vec_front(r@)),
        forall|x: Seq<u8>| vec_front(r@).contains(x) <==> maximal_in(vec_front(vs@), x),
{
    let ghost src = vec_front(vs@);
    // the distinct vectors, in order of first appearance
    let mut seen: Vec<Vec<u8>> = Vec::new();
    let mut k: usize = 0;
    while k < vs.len()
        invariant
            src == vec_front(vs@),
            k <= vs.len(),
            forall|x: Seq<u8>| vec_front(seen@).contains(x) <==> src.take(k as int).contains(x),
            forall|p: int, q: int| 0 <= p < q < seen@.len() ==> (#[trigger] seen@[p])@ != (#[trigger] seen@[q])@,
        decreases vs.len() - k,
    {
        let ghost t0 = src.take(k as int);
        let ghost t1 = src.take(k + 1);
        assert(t1 =~= t0.push(src[k as int]));
        let mut found = false;
        let mut q: usize = 0;
        while q < seen.len()
            invariant
                src == vec_front(vs@),
                k < vs.len(),
                t0 == src.take(k as int),
                forall|x: Seq<u8>| vec_front(seen@).contains(x) <==> t0.contains(x),
                forall|p: int, q2: int| 0 <= p < q2 < seen@.len() ==> (#[trigger] seen@[p])@ != (#[trigger] seen@[q2])@,
                q <= seen.len(),
                found ==> vec_front(seen@).contains(vs@[k as int]@),
                !found ==> forall|p: int| 0 <= p < q ==> (#[trigger] seen@[p])@ != vs@[k as int]@,
            decreases seen.len() - q,
        {
            if !found && bytes_equal(&seen[q], &vs[k]) {
                assert(vec_front(seen@)[q as int] == vs@[k as int]@);
                found = true;
            }
            q += 1;
        }
        if !found {
            let ghost sv = vec_front(seen@);
            let ghost so = seen@;
            seen.push(copy_bytes(&vs[k]));
            assert(vec_front(seen@) =~= sv.push(src[k as int]));
            assert forall|p: int, q: int| 0 <= p < q < seen@.len() implies (#[trigger] seen@[p])@ != (#[trigger] seen@[q])@ by {
                if q == seen@.len() - 1 {
                    assert(so[p]@ != vs@[k as int]@);
                } else {
                    assert(seen@[p] == so[p] && seen@[q] == so[q]);
                }
            }
            assert forall|x: Seq<u8>| vec_front(seen@).contains(x) <==> src.take(k + 1).contains(x) by {
                if vec_front(seen@).contains(x) && x != src[k as int] {
                    let p = choose|p: int| 0 <= p < vec_front(seen@).len() && vec_front(seen@)[p] == x;
                    assert(sv[p] == x);
                    assert(t0.contains(x));
                    let p2 = choose|p2: int| 0 <= p2 < t0.len() && t0[p2] == x;
                    assert(src.take(k + 1)[p2] == x);
                }
                if src.take(k + 1).contains(x) && x != src[k as int] {
                    let p = choose|p: int| 0 <= p < t1.len() && t1[p] == x;
                    assert(t0[p] == x);
                    assert(sv.contains(x));
                    let p2 = choose|p2: int| 0 <= p2 < sv.len() && sv[p2] == x;
                    assert(vec_front(seen@)[p2] == x);
                }
                if x == src[k as int] {
                    assert(vec_front(seen@)[vec_front(seen@).len() - 1] == x);
                    assert(src.take(k + 1)[k as int] == x);
                }
            }
        } else {
            assert forall|x: Seq<u8>| vec_front(seen@).contains(x) <==> src.take(k + 1).contains(x) by {
                if src.take(k + 1).contains(x) && x != src[k as int] {
                    let p = choose|p: int| 0 <= p < t1.len() && t1[p] == x;
                    assert(t0[p] == x);
                }
                if vec_front(seen@).contains(x) {
                    if x != src[k as int] {
                        assert(t0.contains(x));
                        let p2 = choose|p2: int| 0 <= p2 < t0.len() && t0[p2] == x;
                        assert(src.take(k + 1)[p2] == x);
                    } else {
                        assert(src.take(k + 1)[k as int] == x);
                    }
                }
            }
        }
        k += 1;
    }
    assert(src.take(k as int) =~= src);
    let ghost sf = vec_front(seen@);
    assert forall|p: int, q: int| 0 <= p < q < sf.len() implies #[trigger] sf[p] != #[trigger] sf[q] by {
        assert(seen@[p]@ != seen@[q]@);
    }
    // keep the maximal ones, inserting each in report order
    let mut out: Vec<Vec<u8>> = Vec::new();
    let mut a: usize = 0;
    while a < seen.len()
        invariant
            sf == vec_front(seen@),
            forall|x: Seq<u8>| sf.contains(x) <==> src.contains(x),
            forall|p: int, q: int| 0 <= p < q < sf.len() ==> #[trigger] sf[p] != #[trigger] sf[q],
            a <= seen.len(),
            rows_in_order(vec_front(out@)),
            forall|x: Seq<u8>| #![trigger vec_front(out@).contains(x)] #![trigger sf.take(a as int).contains(x)] vec_front(out@).contains(x) <==> (sf.take(a as int).contains(x) && maximal_in(src, x)),
        decreases seen.len() - a,
    {
        let ghost m = sf[a as int];
        let ghost sa = sf.take(a as int);
        let ghost sb = sf.take(a + 1);
        assert(sb =~= sa.push(m));
        assert forall|x: Seq<u8>| vec_front(out@).contains(x) <==> (sa.contains(x) && maximal_in(src, x)) by {
            assert(vec_front(out@).contains(x) <==> (sf.take(a as int).contains(x) && maximal_in(src, x)));
        }
        let mut dominated = false;
        let mut b: usize = 0;
        while b < seen.len()
            invariant
                sf == vec_front(seen@),
                a < seen.len(),
                m == sf[a as int],
                sa == sf.take(a as int),
                sb == sa.push(m),
                forall|x: Seq<u8>| #![trigger vec_front(out@).contains(x)] #![trigger sa.contains(x)] vec_front(out@).contains(x) <==> (sa.contains(x) && maximal_in(src, x)),
                rows_in_order(vec_front(out@)),
                b <= seen.len(),
                dominated ==> exists|p: int| 0 <= p < sf.len() && sf[p] != m && covers(sf[p], m),
                !dominated ==> forall|p: int| 0 <= p < b ==> !(#[trigger] sf[p] != m && covers(sf[p], m)),
            decreases seen.len() - b,
        {
            if !dominated && !bytes_equal(&seen[b], &seen[a]) && covers_exec(&seen[b], &seen[a]) {
                assert(sf[b as int] == seen@[b as int]@ && sf[a as int] == seen@[a as int]@);
                dominated = true;
            }
            b += 1;
        }
        proof {
            assert(sf.contains(m));
            if dominated {
                let p = choose|p: int| 0 <= p < sf.len() && sf[p] != m && covers(sf[p], m);
                assert(sf.contains(sf[p]));
                assert(src.contains(sf[p]));
                assert(!maximal_in(src, m));
            } else {
                assert forall|q: Seq<u8>| #[trigger] src.contains(q) && q != m implies !covers(q, m) by {
                    assert(sf.contains(q));
                    let p = choose|p: int| 0 <= p < sf.len() && sf[p] == q;
                    assert(!(sf[p] != m && covers(sf[p], m)));
                }
                assert(maximal_in(src, m));
            }
        }
        if !dominated {
            // position: after every kept vector that comes before m
            let mut p: usize = 0;
            let ghost ov = vec_front(out@);
            proof {
                assert(!ov.contains(m)) by {
                    if ov.contains(m) {
                        assert(sa.contains(m));
                        let t = choose|t: int| 0 <= t < sa.len() && sa[t] == m;
                        assert(sf[t] == sf[a as int]);
                    }
                }
            }
            while p < out.len() && row_before_exec(&out[p], &seen[a])
                invariant
                    ov == vec_front(out@),
                    forall|x: Seq<u8>| #![trigger ov.contains(x)] #![trigger sa.contains(x)] ov.contains(x) <==> (sa.contains(x) && maximal_in(src, x)),
                    m == sf[a as int],
                    sf == vec_front(seen@),
                    a < seen.len(),
                    rows_in_order(ov),
                    p <= out.len(),
                    forall|t: int| 0 <= t < p ==> row_before(#[trigger] ov[t], m),
                decreases out.len() - p,
            {
                p += 1;
            }
            proof {
                if p < out.len() {
                    lemma_row_order(ov[p as int], m, m);
                    assert(ov[p as int] != m);
                    assert(row_before(m, ov[p as int]));
                    assert forall|t: int| p <= t < ov.len() implies row_before(m, #[trigger] ov[t]) by {
                        if t > p {
                            lemma_row_order(m, ov[p as int], ov[t]);
                        }
                    }
                }
            }
            let row = copy_bytes(&seen[a]);
            out.insert(p, row);
            proof {
                let nv = vec_front(out@);
                assert(nv =~= ov.insert(p as int, m));
                assert forall|i: int, j: int| 0 <= i < j < nv.len() implies row_before(#[trigger] nv[i], #[trigger] nv[j]) by {
                    if j < p {
                        assert(nv[i] == ov[i] && nv[j] == ov[j]);
                    } else if j == p {
                        assert(nv[i] == ov[i]);
                    } else if i == p {
                        assert(nv[j] == ov[j - 1]);
                    } else if i < p {
                        assert(nv[i] == ov[i] && nv[j] == ov[j - 1]);
                        lemma_row_order(ov[i], m, ov[j - 1]);
                    } else {
                        assert(nv[i] == ov[i - 1] && nv[j] == ov[j - 1]);
                    }
                }
                assert forall|x: Seq<u8>| nv.contains(x) <==> (sb.contains(x) && maximal_in(src, x)) by {
                    if nv.contains(x) {
                        let q = choose|q: int| 0 <= q < nv.len() && nv[q] == x;
                        if q < p {
                            assert(ov[q] == x);
                            assert(ov.contains(x));
                        } else if q > p {
                            assert(ov[q - 1] == x);
                            assert(ov.contains(x));
                        }
                        if x != m {
                            assert(sa.contains(x));
                            let t = choose|t: int| 0 <= t < sa.len() && sa[t] == x;
                            assert(sb[t] == x);
                        } else {
                            assert(sb[a as int] == x);
                        }
                    }
                    if sb.contains(x) && maximal_in(src, x) {
                        let t = choose|t: int| 0 <= t < sb.len() && sb[t] == x;
                        if t < a {
                            assert(sa[t] == x);
                            assert(ov.contains(x));
                            let q = choose|q: int| 0 <= q < ov.len() && ov[q] == x;
                            if q < p {
                                assert(nv[q] == x);
                            } else {
                                assert(nv[q + 1] == x);
                            }
                        } else {
                            assert(nv[p as int] == x);
                        }
                    }
                }
            }
        } else {
            proof {
                assert forall|x: Seq<u8>| vec_front(out@).contains(x) <==> (sb.contains(x) && maximal_in(src, x)) by {
                    if sb.contains(x) && x != m {
                        let t = choose|t: int| 0 <= t < sb.len() && sb[t] == x;
                        assert(sa[t] == x);
                    }
                    if sa.contains(x) {
                        let t = choose|t: int| 0 <= t < sa.len() && sa[t] == x;
                        assert(sb[t] == x);
                    }
                }
            }
        }
        a += 1;
    }
    assert(sf.take(a as int) =~= sf);
    out
}

/* -------------------------------- meeting -------------------------------- */

/// The counts meet the requirement of `req` on the letters of `key`.
pub open spec fn meets(c: Seq<usize>, key: Seq<usize>, req: Seq<u8>) -> bool {
    forall|t: int| 0 <= t < key.len() ==> c[key[t] as int] >= req[t]
}

/// The words, in order, whose counts meet the requirement.
pub open spec fn meeting(tbl: Seq<Seq<usize>>, ws: Seq<String>, key: Seq<usize>, req: Seq<u8>) -> Seq<Seq<char>>
    decreases ws.len(),
{
    if ws.len() == 0 || tbl.len() < ws.len() {
        Seq::empty()
    } else {
        let p = meeting(tbl.take(ws.len() - 1), ws.drop_last(), key, req);
        if meets(tbl[ws.len() - 1], key, req) { p.push(ws.last()@) } else { p }
    }
}

/// The words whose counts (`tbl`, one row per word) meet the requirement
/// `req` on the letters of `key`, each once, in increasing order.
pub fn words_meeting(tbl: &Vec<Vec<usize>>, words: &Vec<String>, key: &Vec<usize>, req: &Vec<u8>) -> (r: Vec<String>)
    requires
        tbl@.len() == words@.len(),
        key@.len() <= req@.len(),
        forall|k: int, t: int| #![trigger tbl@[k], key@[t]] 0 <= k < tbl@.len() && 0 <= t < key@.len() ==> (key@[t] as int) < tbl@[k]@.len(),
    ensures
        views(r@) == lex_order(meeting(vec_rows(tbl@), words@, key@, req@)),
{
    let ghost rows = vec_rows(tbl@);
    let mut sel: Vec<String> = Vec::new();
    let mut j: usize = 0;
    while j < words.len()
        invariant
            rows == vec_rows(tbl@),
            tbl@.len() == words@.len(),
            key@.len() <= req@.len(),
            forall|k: int, t: int| #![trigger tbl@[k], key@[t]] 0 <= k < tbl@.len() && 0 <= t < key@.len() ==> (key@[t] as int) < tbl@[k]@.len(),
            j <= words.len(),
            views(sel@) == meeting(rows.take(j as int), words@.take(j as int), key@, req@),
        decreases words.len() - j,
    {
        let mut ok = true;
        let mut t: usize = 0;
        while t < key.len()
            invariant
                j < tbl@.len(),
                key@.len() <= req@.len(),
                forall|k: int, u: int| #![trigger tbl@[k], key@[u]] 0 <= k < tbl@.len() && 0 <= u < key@.len() ==> (key@[u] as int) < tbl@[k]@.len(),
                t <= key.len(),
                ok == forall|u: int| 0 <= u < t ==> tbl@[j as int]@[key@[u] as int] >= req@[u],
            decreases key.len() - t,
        {
            assert(0 <= j < tbl@.len() && 0 <= t < key@.len());
            if tbl[j][key[t]] < req[t] as usize {
                ok = false;
            }
            t += 1;
        }
        proof {
            assert(words@.take(j + 1).drop_last() =~= words@.take(j as int));
            assert(rows.take(j + 1).take(j as int) =~= rows.take(j as int));
            assert(rows.take(j + 1)[j as int] == tbl@[j as int]@);
        }
        if ok {
            let ghost sv = views(sel@);
            sel.push(words[j].clone());
            assert(views(sel@) =~= sv.push(words@[j as int]@));
        }
        j += 1;
    }
    assert(words@.take(j as int) =~= words@);
    assert(rows.take(j as int) =~= rows);
    token_order(&sel)
}

/// The rows of a count table.
pub open spec fn vec_rows(t: Seq<Vec<usize>>) -> Seq<Seq<usize>> {
    Seq::new(t.len(), |k: int| t[k]@)
}

/* --------------------------------- ranking --------------------------------- */

/// How a word stands in the report: in how many word sets of each kind
/// (letters, pairs, triples) it is the only word, and in how many it
/// appears at all.
#[derive(Clone, Debug)]
pub struct Standing {
    pub word: String,
    pub alone1: usize,
    pub alone2: usize,
    pub alone3: usize,
    pub seen1: usize,
    pub seen2: usize,
    pub seen3: usize,
}

/// The word sets, each by its words' scalars.
pub open spec fn set_views(sets: Seq<Vec<String>>) -> Seq<Seq<Seq<char>>> {
    Seq::new(sets.len(), |k: int| views(sets[k]@))
}

/// In how many sets `w` appears.
pub open spec fn seen_in(ss: Seq<Seq<Seq<char>>>, w: Seq<char>) -> nat
    decreases ss.len(),
{
    if ss.len() == 0 {
        0
    } else {
        seen_in(ss.drop_last(), w) + if ss.last().contains(w) { 1nat } else { 0nat }
    }
}

/// In how many sets `w` is the only word.
pub open spec fn alone_in(ss: Seq<Seq<Seq<char>>>, w: Seq<char>) -> nat
    decreases ss.len(),
{
    if ss.len() == 0 {
        0
    } else {
        alone_in(ss.drop_last(), w) + if ss.last() == seq![w] { 1nat } else { 0nat }
    }
}

/// `w` appears in some set.
pub open spec fn in_some(ss: Seq<Seq<Seq<char>>>, w: Seq<char>) -> bool {
    exists|k: int| 0 <= k < ss.len() && (#[trigger] ss[k]).contains(w)
}

pub open spec fn alone_total(a: Standing) -> int {
    a.alone1 + a.alone2 + a.alone3
}

pub open spec fn seen_total(a: Standing) -> int {
    a.seen1 + a.seen2 + a.seen3
}

/// Ranking order: more sets alone, then more sets in all, then more
/// triple, pair and letter sets, then the word.
pub open spec fn standing_before(a: Standing, b: Standing) -> bool {
    if alone_total(a) != alone_total(b) {
        alone_total(a) > alone_total(b)
    } else if seen_total(a) != seen_total(b) {
        seen_total(a) > seen_total(b)
    } else if a.seen3 != b.seen3 {
        a.seen3 > b.seen3
    } else if a.seen2 != b.seen2 {
        a.seen2 > b.seen2
    } else if a.seen1 != b.seen1 {
        a.seen1 > b.seen1
    } else {
        char_seq_lt(a.word@, b.word@)
    }
}

pub open spec fn standings_in_order(v: Seq<Standing>) -> bool {
    forall|i: int, j: int| 0 <= i < j < v.len() ==> standing_before(#[trigger] v[i], #[trigger] v[j])
}

proof fn lemma_standing_order(a: Standing, b: Standing, c: Standing)
    ensures
        !standing_before(a, a),
        a.word@ != b.word@ ==> standing_before(a, b) || standing_before(b, a),
        standing_before(a, b) && standing_before(b, c) ==> standing_before(a, c),
{
    lemma_lt_irreflexive(a.word@);
    if a.word@ != b.word@ {
        lemma_lt_total(a.word@, b.word@);
    }
    if standing_before(a, b) && standing_before(b, c) {
        if char_seq_lt(a.word@, b.word@) && char_seq_lt(b.word@, c.word@) {
            lemma_lt_transitive(a.word@, b.word@, c.word@);
        }
    }
}

fn standing_before_exec(a: &Standing, b: &Standing) -> (r: bool)
    requires
        a.alone1 + a.alone2 + a.alone3 <= u128::MAX,
    ensures
        r == standing_before(*a, *b),
{
    let at = a.alone1 as u128 + a.alone2 as u128 + a.alone3 as u128;
    let bt = b.alone1 as u128 + b.alone2 as u128 + b.alone3 as u128;
    if at != bt {
        return at > bt;
    }
    let st = a.seen1 as u128 + a.seen2 as u128 + a.seen3 as u128;
    let su = b.seen1 as u128 + b.seen2 as u128 + b.seen3 as u128;
    if st != su {
        return st > su;
    }
    if a.seen3 != b.seen3 {
        return a.seen3 > b.seen3;
    }
    if a.seen2 != b.seen2 {
        return a.seen2 > b.seen2;
    }
    if a.seen1 != b.seen1 {
        return a.seen1 > b.seen1;
    }
    let ca = chars_of(a.word.as_str());
    let cb = chars_of(b.word.as_str());
    chars_lt(&ca, &cb)
}

fn copy_standing(a: &Standing) -> (r: Standing)
    ensures
        r == *a,
{
    Standing {
        word: a.word.clone(),
        alone1: a.alone1,
        alone2: a.alone2,
        alone3: a.alone3,
        seen1: a.seen1,
        seen2: a.seen2,
        seen3: a.seen3,
    }
}

/// Words of distinct entries differ.
pub open spec fn distinct_words(v: Seq<Standing>) -> bool {
    forall|i: int, j: int| 0 <= i < v.len() && 0 <= j < v.len() && i != j ==> (#[trigger] v[i]).word@ != (#[trigger] v[j]).word@
}

fn merge_standings(a: &Vec<Standing>, b: &Vec<Standing>) -> (out: Vec<Standing>)
    requires
        standings_in_order(a@),
        standings_in_order(b@),
        distinct_words(a@ + b@),
    ensures
        standings_in_order(out@),
        out@.to_multiset() == (a@ + b@).to_multiset(),
        out@.len() == a@.len() + b@.len(),
{
    let mut out: Vec<Standing> = Vec::new();
    let mut i: usize = 0;
    let mut j: usize = 0;
    proof {
        assert(a@.take(0) + b@.take(0) =~= Seq::<Standing>::empty());
        assert(out@ =~= Seq::<Standing>::empty());
    }
    while i < a.len() || j < b.len()
        invariant
            standings_in_order(a@),
            standings_in_order(b@),
            distinct_words(a@ + b@),
            i <= a.len(),
            j <= b.len(),
            out@.len() == i + j,
            standings_in_order(out@),
            out@.to_multiset() == (a@.take(i as int) + b@.take(j as int)).to_multiset(),
            out@.len() > 0 && i < a.len() ==> standing_before(out@.last(), a@[i as int]),
            out@.len() > 0 && j < b.len() ==> standing_before(out@.last(), b@[j as int]),
        decreases a.len() + b.len() - i - j,
    {
        let ghost ov = out@;
        let take_a = j >= b.len() || (i < a.len() && standing_before_total(&a[i], &b[j]));
        proof {
            if i < a.len() && j < b.len() {
                assert((a@ + b@)[i as int] == a@[i as int]);
                assert((a@ + b@)[a@.len() + j] == b@[j as int]);
                assert(a@[i as int].word@ != b@[j as int].word@);
                lemma_standing_order(a@[i as int], b@[j as int], b@[j as int]);
            }
        }
        if take_a {
            let e = copy_standing(&a[i]);
            out.push(e);
            proof {
                assert(a@.take(i + 1) =~= a@.take(i as int).push(a@[i as int]));
                assert(a@.take(i + 1) + b@.take(j as int) =~= (a@.take(i as int) + b@.take(j as int)).insert(i as int, a@[i as int]));
                assert(out@ =~= ov.push(a@[i as int]));
                lemma_push_multiset(ov, a@[i as int]);
                lemma_insert_multiset(a@.take(i as int) + b@.take(j as int), i as int, a@[i as int]);
                assert forall|p: int, q: int| 0 <= p < q < out@.len() implies standing_before(#[trigger] out@[p], #[trigger] out@[q]) by {
                    if q == out@.len() - 1 && p < ov.len() - 1 {
                        lemma_standing_order(ov[p], ov.last(), a@[i as int]);
                    }
                }
                if i + 1 < a.len() {
                    assert(standing_before(a@[i as int], a@[i + 1]));
                }
            }
            i += 1;
        } else {
            let e = copy_standing(&b[j]);
            out.push(e);
            proof {
                assert(b@.take(j + 1) =~= b@.take(j as int).push(b@[j as int]));
                assert(a@.take(i as int) + b@.take(j + 1) =~= (a@.take(i as int) + b@.take(j as int)).push(b@[j as int]));
                assert(out@ =~= ov.push(b@[j as int]));
                lemma_push_multiset(ov, b@[j as int]);
                lemma_push_multiset(a@.take(i as int) + b@.take(j as int), b@[j as int]);
                assert forall|p: int, q: int| 0 <= p < q < out@.len() implies standing_before(#[trigger] out@[p], #[trigger] out@[q]) by {
                    if q == out@.len() - 1 && p < ov.len() - 1 {
                        lemma_standing_order(ov[p], ov.last(), b@[j as int]);
                    }
                }
                if j + 1 < b.len() {
                    assert(standing_before(b@[j as int], b@[j + 1]));
                }
            }
            j += 1;
        }
    }
    assert(a@.take(i as int) =~= a@);
    assert(b@.take(j as int) =~= b@);
    out
}

fn standing_before_total(a: &Standing, b: &Standing) -> (r: bool)
    ensures
        r == standing_before(*a, *b),
{
    standing_before_exec(a, b)
}

proof fn lemma_push_multiset(s: Seq<Standing>, e: Standing)
    ensures
        s.push(e).to_multiset() == s.to_multiset().insert(e),
{
    broadcast use vstd::seq_lib::group_to_multiset_ensures;
}

proof fn lemma_insert_multiset(s: Seq<Standing>, i: int, e: Standing)
    requires
        0 <= i <= s.len(),
    ensures
        s.insert(i, e).to_multiset() == s.to_multiset().insert(e),
{
    broadcast use vstd::seq_lib::group_to_multiset_ensures;
}

/// A reordering of entries with distinct words has distinct words.
proof fn lemma_distinct_words_perm(s1: Seq<Standing>, s2: Seq<Standing>)
    requires
        s1.to_multiset() == s2.to_multiset(),
        distinct_words(s1),
    ensures
        distinct_words(s2),
{
    broadcast use vstd::seq_lib::group_to_multiset_ensures;
    assert(s1.no_duplicates()) by {
        assert forall|i: int, j: int| 0 <= i < s1.len() && 0 <= j < s1.len() && i != j implies s1[i] != s1[j] by {
            assert(s1[i].word@ != s1[j].word@);
        }
    }
    s1.lemma_multiset_has_no_duplicates();
    s2.lemma_multiset_has_no_duplicates_conv();
    assert forall|i: int, j: int| 0 <= i < s2.len() && 0 <= j < s2.len() && i != j implies
        (#[trigger] s2[i]).word@ != (#[trigger] s2[j]).word@ by {
        assert(s2.contains(s2[i]));
        assert(s2.contains(s2[j]));
        assert(s2.to_multiset().count(s2[i]) > 0);
        assert(s2.to_multiset().count(s2[j]) > 0);
        assert(s1.to_multiset().count(s2[i]) > 0);
        assert(s1.to_multiset().count(s2[j]) > 0);
        assert(s1.contains(s2[i]));
        assert(s1.contains(s2[j]));
        let p = choose|p: int| 0 <= p < s1.len() && s1[p] == s2[i];
        let q = choose|q: int| 0 <= q < s1.len() && s1[q] == s2[j];
        assert(s2[i] != s2[j]);
    }
}

/// Sorts `v[lo..hi]` into ranking order.
fn sort_standing_range(v: &Vec<Standing>, lo: usize, hi: usize) -> (out: Vec<Standing>)
    requires
        lo <= hi <= v.len(),
        distinct_words(v@),
    ensures
        standings_in_order(out@),
        out@.to_multiset() == v@.subrange(lo as int, hi as int).to_multiset(),
    decreases hi - lo,
{
    if hi - lo == 0 {
        let out: Vec<Standing> = Vec::new();
        assert(out@ =~= v@.subrange(lo as int, hi as int));
        out
    } else if hi - lo == 1 {
        let mut out: Vec<Standing> = Vec::new();
        out.push(copy_standing(&v[lo]));
        assert(out@ =~= v@.subrange(lo as int, hi as int));
        out
    } else {
        let mid = lo + (hi - lo) / 2;
        let a = sort_standing_range(v, lo, mid);
        let b = sort_standing_range(v, mid, hi);
        proof {
            let sl = v@.subrange(lo as int, mid as int);
            let sr = v@.subrange(mid as int, hi as int);
            assert(v@.subrange(lo as int, hi as int) =~= sl + sr);
            vstd::seq_lib::lemma_multiset_commutative(sl, sr);
            vstd::seq_lib::lemma_multiset_commutative(a@, b@);
            assert forall|i: int, j: int| 0 <= i < (sl + sr).len() && 0 <= j < (sl + sr).len() && i != j implies
                (#[trigger] (sl + sr)[i]).word@ != (#[trigger] (sl + sr)[j]).word@ by {
                assert((sl + sr)[i] == v@[lo + i]);
                assert((sl + sr)[j] == v@[lo + j]);
            }
            lemma_distinct_words_perm(sl + sr, a@ + b@);
        }
        let out = merge_standings(&a, &b);
        out
    }
}

/// Adds one set of words to the counts of the words of `u`.
fn count_set(u: &Vec<String>, set: &Vec<String>, seen: &mut Vec<usize>, alone: &mut Vec<usize>,
    Ghost(done): Ghost<Seq<Seq<Seq<char>>>>)
    requires
        strictly_sorted(views(u@)),
        strictly_sorted(views(set@)),
        forall|t: int| 0 <= t < set@.len() ==> views(u@).contains(#[trigger] views(set@)[t]),
        old(seen)@.len() == u@.len(),
        old(alone)@.len() == u@.len(),
        forall|q: int| 0 <= q < u@.len() ==> (#[trigger] old(seen)@[q]) as int == seen_in(done, u@[q]@),
        forall|q: int| 0 <= q < u@.len() ==> (#[trigger] old(alone)@[q]) as int == alone_in(done, u@[q]@),
        forall|q: int| 0 <= q < u@.len() ==> (#[trigger] old(seen)@[q]) < usize::MAX,
        forall|q: int| 0 <= q < u@.len() ==> (#[trigger] old(alone)@[q]) < usize::MAX,
    ensures
        final(seen)@.len() == u@.len(),
        final(alone)@.len() == u@.len(),
        forall|q: int| 0 <= q < u@.len() ==> (#[trigger] final(seen)@[q]) as int == seen_in(done.push(views(set@)), u@[q]@),
        forall|q: int| 0 <= q < u@.len() ==> (#[trigger] final(alone)@[q]) as int == alone_in(done.push(views(set@)), u@[q]@),
{
    let ghost us = views(u@);
    let ghost sv = views(set@);
    let ghost s0 = seen@;
    let ghost a0 = alone@;
    let mut m: usize = 0;
    while m < set.len()
        invariant
            us == views(u@),
            sv == views(set@),
            strictly_sorted(us),
            strictly_sorted(sv),
            forall|t: int| 0 <= t < set@.len() ==> us.contains(#[trigger] sv[t]),
            seen@.len() == u@.len(),
            m <= set.len(),
            forall|q: int| 0 <= q < u@.len() ==> (#[trigger] seen@[q]) as int
                == s0[q] + if sv.take(m as int).contains(us[q]) { 1int } else { 0int },
            forall|q: int| 0 <= q < u@.len() ==> (#[trigger] s0[q]) < usize::MAX,
            s0.len() == u@.len(),
            alone@ == a0,
            a0.len() == u@.len(),
            forall|q: int| 0 <= q < u@.len() ==> (#[trigger] a0[q]) as int == alone_in(done, u@[q]@),
            forall|q: int| 0 <= q < u@.len() ==> (#[trigger] a0[q]) < usize::MAX,
            forall|q: int| 0 <= q < u@.len() ==> (#[trigger] s0[q]) as int == seen_in(done, u@[q]@),
        decreases set.len() - m,
    {
        let c = chars_of(set[m].as_str());
        assert(us.contains(sv[m as int]));
        match locate(u, &c) {
            Ok(k) => {
                let ghost t0 = sv.take(m as int);
                let ghost t1 = sv.take(m + 1);
                proof {
                    assert(us[k as int] == sv[m as int]);
                    assert(t1 =~= t0.push(sv[m as int]));
                    assert(!sv.take(m as int).contains(sv[m as int])) by {
                        if sv.take(m as int).contains(sv[m as int]) {
                            let t = choose|t: int| 0 <= t < t0.len() && t0[t] == sv[m as int];
                            assert(char_seq_lt(sv[t], sv[m as int]));
                            lemma_lt_irreflexive(sv[m as int]);
                        }
                    }
                }
                let v = seen[k];
                seen.set(k, v + 1);
                proof {
                    assert forall|q: int| 0 <= q < u@.len() implies (#[trigger] seen@[q]) as int
                        == s0[q] + if sv.take(m + 1).contains(us[q]) { 1int } else { 0int } by {
                        if q != k {
                            assert(us[q] != us[k as int]) by {
                                if us[q] == us[k as int] {
                                    if q < k {
                                        assert(char_seq_lt(us[q], us[k as int]));
                                    } else {
                                        assert(char_seq_lt(us[k as int], us[q]));
                                    }
                                    lemma_lt_irreflexive(us[q]);
                                }
                            }
                            if sv.take(m + 1).contains(us[q]) {
                                let t = choose|t: int| 0 <= t < t1.len() && t1[t] == us[q];
                                if t < m {
                                    assert(sv.take(m as int)[t] == us[q]);
                                }
                            }
                            if sv.take(m as int).contains(us[q]) {
                                let t = choose|t: int| 0 <= t < t0.len() && t0[t] == us[q];
                                assert(sv.take(m + 1)[t] == us[q]);
                            }
                        } else {
                            assert(sv.take(m + 1)[m as int] == us[q]);
                        }
                    }
                }
            },
            Err(k) => {
                proof {
                    let p = choose|p: int| 0 <= p < us.len() && us[p] == sv[m as int];
                    assert(u@[p]@ == c@);
                    lemma_lt_irreflexive(c@);
                }
            },
        }
        m += 1;
    }
    assert(sv.take(m as int) =~= sv);
    if set.len() == 1 {
        let c = chars_of(set[0].as_str());
        assert(us.contains(sv[0]));
        match locate(u, &c) {
            Ok(k) => {
                let a = alone[k];
                alone.set(k, a + 1);
                proof {
                    assert(us[k as int] == sv[0]);
                    assert(sv =~= seq![sv[0]]);
                    assert forall|q: int| 0 <= q < u@.len() && q != k implies us[q] != us[k as int] by {
                        if us[q] == us[k as int] {
                            if q < k {
                                assert(char_seq_lt(us[q], us[k as int]));
                            } else {
                                assert(char_seq_lt(us[k as int], us[q]));
                            }
                            lemma_lt_irreflexive(us[q]);
                        }
                    }
                }
            },
            Err(k) => {
                proof {
                    let p = choose|p: int| 0 <= p < us.len() && us[p] == sv[0];
                    assert(u@[p]@ == c@);
                    lemma_lt_irreflexive(c@);
                }
            },
        }
    }
    proof {
        assert(done.push(sv).drop_last() =~= done);
        assert forall|q: int| 0 <= q < u@.len() implies (#[trigger] alone@[q]) as int == alone_in(done.push(sv), u@[q]@) by {
            if sv.len() == 1 {
                assert(sv =~= seq![sv[0]]);
                if sv == seq![us[q]] {
                    assert(us[q] == sv[0]);
                } else {
                    assert(us[q] != sv[0]);
                }
            } else {
                assert(sv.len() != seq![us[q]].len());
            }
            assert(us[q] == u@[q]@);
        }
        assert forall|q: int| 0 <= q < u@.len() implies (#[trigger] seen@[q]) as int == seen_in(done.push(sv), u@[q]@) by {
            assert(us[q] == u@[q]@);
        }
    }
}

proof fn lemma_seen_bound(ss: Seq<Seq<Seq<char>>>, w: Seq<char>)
    ensures
        seen_in(ss, w) <= ss.len(),
        alone_in(ss, w) <= ss.len(),
    decreases ss.len(),
{
    if ss.len() > 0 {
        lemma_seen_bound(ss.drop_last(), w);
    }
}

/// Appends every word of every set.
fn collect_words(sets: &Vec<Vec<String>>, all: &mut Vec<String>)
    ensures
        forall|x: Seq<char>| #![trigger views(final(all)@).contains(x)] #![trigger views(old(all)@).contains(x)]
            #![trigger in_some(set_views(sets@), x)]
            views(final(all)@).contains(x) <==> (views(old(all)@).contains(x) || in_some(set_views(sets@), x)),
{
    let ghost a0 = views(all@);
    let ghost ss = set_views(sets@);
    let mut k: usize = 0;
    while k < sets.len()
        invariant
            ss == set_views(sets@),
            k <= sets.len(),
            forall|x: Seq<char>| #![trigger views(all@).contains(x)] #![trigger in_some(ss.take(k as int), x)]
                views(all@).contains(x) <==> (a0.contains(x) || in_some(ss.take(k as int), x)),
        decreases sets.len() - k,
    {
        let ghost a1 = views(all@);
        let set = &sets[k];
        let mut m: usize = 0;
        while m < set.len()
            invariant
                ss == set_views(sets@),
                k < sets.len(),
                *set == sets@[k as int],
                m <= set.len(),
                forall|x: Seq<char>| #![trigger views(all@).contains(x)] #![trigger views(set@).take(m as int).contains(x)]
                    views(all@).contains(x) <==> (a1.contains(x) || views(set@).take(m as int).contains(x)),
            decreases set.len() - m,
        {
            let ghost av = views(all@);
            all.push(set[m].clone());
            proof {
                assert(views(all@) =~= av.push(views(set@)[m as int]));
                let t0 = views(set@).take(m as int);
                let t1 = views(set@).take(m + 1);
                assert(t1 =~= t0.push(views(set@)[m as int]));
                assert forall|x: Seq<char>| views(all@).contains(x) <==> (a1.contains(x) || t1.contains(x)) by {
                    if views(all@).contains(x) {
                        let p = choose|p: int| 0 <= p < views(all@).len() && views(all@)[p] == x;
                        if p < av.len() {
                            assert(av[p] == x);
                            if !a1.contains(x) {
                                assert(t0.contains(x));
                                let q = choose|q: int| 0 <= q < t0.len() && t0[q] == x;
                                assert(t1[q] == x);
                            }
                        } else {
                            assert(t1[m as int] == x);
                        }
                    }
                    if t1.contains(x) {
                        let q = choose|q: int| 0 <= q < t1.len() && t1[q] == x;
                        if q < m {
                            assert(t0[q] == x);
                            assert(t0.contains(x));
                            assert(views(set@).take(m as int).contains(x));
                            assert(av.contains(x));
                            let p = choose|p: int| 0 <= p < av.len() && av[p] == x;
                            assert(views(all@)[p] == x);
                        } else {
                            assert(views(all@)[av.len() as int] == x);
                        }
                    }
                    if a1.contains(x) {
                        assert(av.contains(x));
                        let p = choose|p: int| 0 <= p < av.len() && av[p] == x;
                        assert(views(all@)[p] == x);
                    }
                }
            }
            m += 1;
        }
        proof {
            assert(views(set@).take(m as int) =~= ss[k as int]);
            assert forall|x: Seq<char>| views(all@).contains(x) <==> (a1.contains(x) || ss[k as int].contains(x)) by {
                assert(views(all@).contains(x) <==> (a1.contains(x) || views(set@).take(m as int).contains(x)));
            }
            let tk = ss.take(k as int);
            let tk1 = ss.take(k + 1);
            assert(tk1 =~= tk.push(ss[k as int]));
            assert forall|x: Seq<char>| views(all@).contains(x) <==> (a0.contains(x) || in_some(tk1, x)) by {
                assert(a1.contains(x) <==> (a0.contains(x) || in_some(tk, x)));
                if in_some(tk1, x) {
                    let q = choose|q: int| 0 <= q < tk1.len() && (#[trigger] tk1[q]).contains(x);
                    if q < k {
                        assert(tk[q] == tk1[q]);
                        assert(in_some(tk, x));
                    }
                }
                if in_some(tk, x) {
                    let q = choose|q: int| 0 <= q < tk.len() && (#[trigger] tk[q]).contains(x);
                    assert(tk1[q] == tk[q]);
                    assert(in_some(tk1, x));
                }
                if ss[k as int].contains(x) {
                    assert(tk1[k as int] == ss[k as int]);
                    assert(in_some(tk1, x));
                }
            }
        }
        k += 1;
    }
    assert(ss.take(k as int) =~= ss);
}

/// Counts, for each word of `u`, the sets of `sets` it appears in and those
/// it is alone in.
fn count_group(u: &Vec<String>, sets: &Vec<Vec<String>>) -> (r: (Vec<usize>, Vec<usize>))
    requires
        strictly_sorted(views(u@)),
        forall|k: int| 0 <= k < sets@.len() ==> strictly_sorted(#[trigger] views(sets@[k]@)),
        forall|x: Seq<char>| in_some(set_views(sets@), x) ==> views(u@).contains(x),
    ensures
        r.0@.len() == u@.len(),
        r.1@.len() == u@.len(),
        forall|q: int| 0 <= q < u@.len() ==> (#[trigger] r.0@[q]) as int == seen_in(set_views(sets@), u@[q]@),
        forall|q: int| 0 <= q < u@.len() ==> (#[trigger] r.1@[q]) as int == alone_in(set_views(sets@), u@[q]@),
{
    let ghost ss = set_views(sets@);
    let mut seen: Vec<usize> = Vec::new();
    let mut alone: Vec<usize> = Vec::new();
    let mut q: usize = 0;
    while q < u.len()
        invariant
            q <= u.len(),
            seen@.len() == q,
            alone@.len() == q,
            forall|p: int| 0 <= p < q ==> (#[trigger] seen@[p]) == 0,
            forall|p: int| 0 <= p < q ==> (#[trigger] alone@[p]) == 0,
        decreases u.len() - q,
    {
        seen.push(0);
        alone.push(0);
        q += 1;
    }
    let mut k: usize = 0;
    proof {
        assert(ss.take(0) =~= Seq::<Seq<Seq<char>>>::empty());
    }
    while k < sets.len()
        invariant
            ss == set_views(sets@),
            strictly_sorted(views(u@)),
            forall|t: int| 0 <= t < sets@.len() ==> strictly_sorted(#[trigger] views(sets@[t]@)),
            forall|x: Seq<char>| in_some(ss, x) ==> views(u@).contains(x),
            k <= sets.len(),
            seen@.len() == u@.len(),
            alone@.len() == u@.len(),
            forall|p: int| 0 <= p < u@.len() ==> (#[trigger] seen@[p]) as int == seen_in(ss.take(k as int), u@[p]@),
            forall|p: int| 0 <= p < u@.len() ==> (#[trigger] alone@[p]) as int == alone_in(ss.take(k as int), u@[p]@),
        decreases sets.len() - k,
    {
        proof {
            assert forall|t: int| 0 <= t < sets@[k as int]@.len() implies views(u@).contains(#[trigger] views(sets@[k as int]@)[t]) by {
                assert(ss[k as int] == views(sets@[k as int]@));
                assert(in_some(ss, views(sets@[k as int]@)[t]));
            }
            assert forall|p: int| 0 <= p < u@.len() implies (#[trigger] seen@[p]) < usize::MAX by {
                lemma_seen_bound(ss.take(k as int), u@[p]@);
            }
            assert forall|p: int| 0 <= p < u@.len() implies (#[trigger] alone@[p]) < usize::MAX by {
                lemma_seen_bound(ss.take(k as int), u@[p]@);
            }
        }
        count_set(u, &sets[k], &mut seen, &mut alone, Ghost(ss.take(k as int)));
        proof {
            assert(ss.take(k as int).push(views(sets@[k as int]@)) =~= ss.take(k + 1));
        }
        k += 1;
    }
    assert(ss.take(k as int) =~= ss);
    (seen, alone)
}

/// The words of the report's word sets (`r1` per letter, `r2` per pair
/// requirement, `r3` per triple requirement, each set increasing), each
/// once with its counts, in ranking order.
pub fn rank_words(r1: &Vec<Vec<String>>, r2: &Vec<Vec<String>>, r3: &Vec<Vec<String>>) -> (out: Vec<Standing>)
    requires
        forall|k: int| 0 <= k < r1@.len() ==> strictly_sorted(#[trigger] views(r1@[k]@)),
        forall|k: int| 0 <= k < r2@.len() ==> strictly_sorted(#[trigger] views(r2@[k]@)),
        forall|k: int| 0 <= k < r3@.len() ==> strictly_sorted(#[trigger] views(r3@[k]@)),
    ensures
        standings_in_order(out@),
        forall|x: Seq<char>| (exists|i: int| 0 <= i < out@.len() && (#[trigger] out@[i]).word@ == x)
            <==> (in_some(set_views(r1@), x) || in_some(set_views(r2@), x) || in_some(set_views(r3@), x)),
        forall|i: int| 0 <= i < out@.len() ==> {
            let e = #[trigger] out@[i];
            &&& e.alone1 == alone_in(set_views(r1@), e.word@)
            &&& e.alone2 == alone_in(set_views(r2@), e.word@)
            &&& e.alone3 == alone_in(set_views(r3@), e.word@)
            &&& e.seen1 == seen_in(set_views(r1@), e.word@)
            &&& e.seen2 == seen_in(set_views(r2@), e.word@)
            &&& e.seen3 == seen_in(set_views(r3@), e.word@)
        },
{
    let ghost s1 = set_views(r1@);
    let ghost s2 = set_views(r2@);
    let ghost s3 = set_views(r3@);
    let mut all: Vec<String> = Vec::new();
    assert(views(all@) =~= Seq::<Seq<char>>::empty());
    collect_words(r1, &mut all);
    let ghost v1 = views(all@);
    collect_words(r2, &mut all);
    let ghost v2 = views(all@);
    collect_words(r3, &mut all);
    let u = token_order(&all);
    let ghost us = views(u@);
    assert(lex_sorted_of(us, views(all@)));
    assert forall|x: Seq<char>| #[trigger] us.contains(x) <==> (in_some(s1, x) || in_some(s2, x) || in_some(s3, x)) by {
        assert(v1.contains(x) <==> (Seq::<Seq<char>>::empty().contains(x) || in_some(s1, x)));
        assert(v2.contains(x) <==> (v1.contains(x) || in_some(s2, x)));
        assert(views(all@).contains(x) <==> (v2.contains(x) || in_some(s3, x)));
        assert(us.contains(x) <==> views(all@).contains(x));
    }
    let (seen1, alone1) = count_group(&u, r1);
    let (seen2, alone2) = count_group(&u, r2);
    let (seen3, alone3) = count_group(&u, r3);
    let mut entries: Vec<Standing> = Vec::new();
    let mut q: usize = 0;
    while q < u.len()
        invariant
            us == views(u@),
            q <= u.len(),
            entries@.len() == q,
            seen1@.len() == u@.len() && seen2@.len() == u@.len() && seen3@.len() == u@.len(),
            alone1@.len() == u@.len() && alone2@.len() == u@.len() && alone3@.len() == u@.len(),
            forall|p: int| 0 <= p < q ==> (#[trigger] entries@[p]).word@ == us[p]
                && entries@[p].seen1 == seen1@[p] && entries@[p].seen2 == seen2@[p] && entries@[p].seen3 == seen3@[p]
                && entries@[p].alone1 == alone1@[p] && entries@[p].alone2 == alone2@[p] && entries@[p].alone3 == alone3@[p],
        decreases u.len() - q,
    {
        entries.push(Standing {
            word: u[q].clone(),
            alone1: alone1[q],
            alone2: alone2[q],
            alone3: alone3[q],
            seen1: seen1[q],
            seen2: seen2[q],
            seen3: seen3[q],
        });
        q += 1;
    }
    proof {
        assert forall|i: int, j: int| 0 <= i < entries@.len() && 0 <= j < entries@.len() && i != j implies
            (#[trigger] entries@[i]).word@ != (#[trigger] entries@[j]).word@ by {
            if i < j {
                assert(char_seq_lt(us[i], us[j]));
            } else {
                assert(char_seq_lt(us[j], us[i]));
            }
            lemma_lt_irreflexive(us[i]);
            if us[i] == us[j] {
                lemma_lt_irreflexive(us[j]);
            }
        }
    }
    let out = sort_standing_range(&entries, 0, entries.len());
    proof {
        broadcast use vstd::seq_lib::group_to_multiset_ensures;
        assert(entries@.subrange(0, entries@.len() as int) =~= entries@);
        assert forall|i: int| 0 <= i < out@.len() implies exists|p: int| 0 <= p < entries@.len() && entries@[p] == #[trigger] out@[i] by {
            assert(out@.contains(out@[i]));
            assert(out@.to_multiset().count(out@[i]) > 0);
            assert(entries@.contains(out@[i]));
        }
        assert forall|p: int| #![trigger entries@[p]] 0 <= p < entries@.len() implies exists|i: int| 0 <= i < out@.len() && #[trigger] out@[i] == entries@[p] by {
            assert(entries@.contains(entries@[p]));
            assert(entries@.to_multiset().count(entries@[p]) > 0);
            assert(out@.contains(entries@[p]));
        }
        assert forall|x: Seq<char>| (exists|i: int| 0 <= i < out@.len() && (#[trigger] out@[i]).word@ == x)
            <==> (in_some(s1, x) || in_some(s2, x) || in_some(s3, x)) by {
            if exists|i: int| 0 <= i < out@.len() && (#[trigger] out@[i]).word@ == x {
                let i = choose|i: int| 0 <= i < out@.len() && (#[trigger] out@[i]).word@ == x;
                let p = choose|p: int| 0 <= p < entries@.len() && entries@[p] == #[trigger] out@[i];
                assert(us.contains(x));
                assert(views(all@).contains(x));
            }
            if in_some(s1, x) || in_some(s2, x) || in_some(s3, x) {
                assert(views(all@).contains(x));
                assert(us.contains(x));
                let p = choose|p: int| 0 <= p < us.len() && us[p] == x;
                assert(entries@[p].word@ == x);
                let i = choose|i: int| 0 <= i < out@.len() && #[trigger] out@[i] == entries@[p];
                assert(out@[i].word@ == x);
            }
        }
        assert forall|i: int| 0 <= i < out@.len() implies {
            let e = #[trigger] out@[i];
            &&& e.alone1 == alone_in(s1, e.word@)
            &&& e.alone2 == alone_in(s2, e.word@)
            &&& e.alone3 == alone_in(s3, e.word@)
            &&& e.seen1 == seen_in(s1, e.word@)
            &&& e.seen2 == seen_in(s2, e.word@)
            &&& e.seen3 == seen_in(s3, e.word@)
        } by {
            let p = choose|p: int| 0 <= p < entries@.len() && entries@[p] == #[trigger] out@[i];
            assert(entries@[p].word@ == us[p]);
            assert(us[p] == u@[p]@);
        }
    }
    out
}

/// The vectors of a front of fixed-size arrays, as vectors.
fn front_vectors<const N: usize>(front: &Vec<[u8; N]>) -> (r: Vec<Vec<u8>>)
    ensures
        vec_front(r@) == array_front(front@),
{
    let mut r: Vec<Vec<u8>> = Vec::new();
    let mut k: usize = 0;
    while k < front.len()
        invariant
            k <= front.len(),
            vec_front(r@) == array_front(front@).take(k as int),
        decreases front.len() - k,
    {
        let arr = front[k];
        let mut v: Vec<u8> = Vec::new();
        let mut t: usize = 0;
        while t < N
            invariant
                t <= N,
                v@ == arr@.take(t as int),
            decreases N - t,
        {
            v.push(arr[t]);
            assert(v@ =~= arr@.take(t + 1));
            t += 1;
        }
        assert(arr@.take(t as int) =~= arr@);
        let ghost rv = vec_front(r@);
        r.push(v);
        assert(arr == front@[k as int]);
        assert(vec_front(r@) =~= rv.push(arr@));
        assert(array_front(front@).take(k + 1) =~= array_front(front@).take(k as int).push(front@[k as int]@));
        assert(vec_front(r@) =~= array_front(front@).take(k + 1));
        k += 1;
    }
    assert(array_front(front@).take(k as int) =~= array_front(front@));
    r
}

/// The maximal requirement vectors of a letter pair's front, each once, in
/// report order.
pub fn pair_requirement_rows(front: &Vec<[u8; 2]>) -> (r: Vec<Vec<u8>>)
    ensures
        rows_in_order(vec_front(r@)),
        forall|x: Seq<u8>| vec_front(r@).contains(x) <==> maximal_in(array_front(front@), x),
{
    let vs = front_vectors(front);
    requirement_rows(&vs)
}

/// The maximal requirement vectors of a letter triple's front, each once,
/// in report order.
pub fn triple_requirement_rows(front: &Vec<[u8; 3]>) -> (r: Vec<Vec<u8>>)
    ensures
        rows_in_order(vec_front(r@)),
        forall|x: Seq<u8>| vec_front(r@).contains(x) <==> maximal_in(array_front(front@), x),
{
    let vs = front_vectors(front);
    requirement_rows(&vs)
}

} // verus!
