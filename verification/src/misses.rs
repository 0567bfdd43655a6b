//! Failed words grouped by their Hall certificate: each certificate names a
//! letter set and how many of each letter it needs; groups with the same
//! letter set keep the largest need per letter and count their members.

use vstd::prelude::*;
use crate::alphabet::{lemma_positive_positions, letter_counts, positive_positions, present_letters, Alphabet};
use crate::stats::{sat_counts, word_counts};
use crate::types::{coverage_for_tuple, union_cubes, CubeIndex};

verus! {

broadcast use vstd::string::group_string_axioms;

/// The letter set a certificate names: its letters with a positive count.
pub open spec fn cert_key(syms: Seq<char>, c: Seq<char>) -> Seq<usize> {
    positive_positions(word_counts(syms, c))
}

/// How many of each letter of its set a certificate needs (at most 255).
pub open spec fn cert_vec(syms: Seq<char>, c: Seq<char>) -> Seq<u8> {
    Seq::new(cert_key(syms, c).len(), |t: int| sat_counts(word_counts(syms, c))[cert_key(syms, c)[t] as int])
}

/// How many certificates name the letter set `k`.
pub open spec fn group_count(syms: Seq<char>, cs: Seq<String>, k: Seq<usize>) -> nat
    decreases cs.len(),
{
    if cs.len() == 0 {
        0
    } else {
        group_count(syms, cs.drop_last(), k) + if cert_key(syms, cs.last()@) == k { 1nat } else { 0nat }
    }
}

/// The largest need at position `t` among the certificates naming `k`.
pub open spec fn group_max(syms: Seq<char>, cs: Seq<String>, k: Seq<usize>, t: int) -> int
    decreases cs.len(),
{
    if cs.len() == 0 {
        0
    } else {
        let prev = group_max(syms, cs.drop_last(), k, t);
        if cert_key(syms, cs.last()@) == k && cert_vec(syms, cs.last()@)[t] as int > prev {
            cert_vec(syms, cs.last()@)[t] as int
        } else {
            prev
        }
    }
}

/// The group's need: the sum of its largest needs over the first `t` letters.
pub open spec fn group_need(syms: Seq<char>, cs: Seq<String>, k: Seq<usize>, t: int) -> int
    decreases t,
{
    if t <= 0 {
        0
    } else {
        group_need(syms, cs, k, t - 1) + group_max(syms, cs, k, t - 1)
    }
}

/// Letter set `a` comes before `b` in lexicographic order.
pub open spec fn key_lt(a: Seq<usize>, b: Seq<usize>) -> bool
    decreases a.len(),
{
    if a.len() == 0 {
        b.len() > 0
    } else if b.len() == 0 {
        false
    } else if a[0] < b[0] {
        true
    } else if a[0] == b[0] {
        key_lt(a.drop_first(), b.drop_first())
    } else {
        false
    }
}

/// One group of failed words.
#[derive(Clone, Debug)]
pub struct MissGroup {
    pub key: Vec<usize>,
    pub need: i32,
    pub have: i32,
    pub gap: i32,
    pub count: usize,
}

/// Report order: larger gap first, then more words, then by letter set.
pub open spec fn group_before(a: MissGroup, b: MissGroup) -> bool {
    if a.gap != b.gap {
        a.gap > b.gap
    } else if a.count != b.count {
        a.count > b.count
    } else {
        key_lt(a.key@, b.key@)
    }
}

proof fn lemma_key_lt_irreflexive(a: Seq<usize>)
    ensures
        !key_lt(a, a),
    decreases a.len(),
{
    if a.len() > 0 {
        lemma_key_lt_irreflexive(a.drop_first());
    }
}

proof fn lemma_key_lt_transitive(a: Seq<usize>, b: Seq<usize>, c: Seq<usize>)
    requires
        key_lt(a, b),
        key_lt(b, c),
    ensures
        key_lt(a, c),
    decreases a.len(),
{
    if a.len() > 0 && b.len() > 0 && c.len() > 0 {
        if a[0] == b[0] && b[0] == c[0] {
            lemma_key_lt_transitive(a.drop_first(), b.drop_first(), c.drop_first());
        }
    }
}

proof fn lemma_key_lt_total(a: Seq<usize>, b: Seq<usize>)
    requires
        a != b,
    ensures
        key_lt(a, b) || key_lt(b, a),
    decreases a.len(),
{
    if a.len() > 0 && b.len() > 0 {
        if a[0] == b[0] {
            if a.drop_first() == b.drop_first() {
                assert(a =~= seq![a[0]] + a.drop_first());
                assert(b =~= seq![b[0]] + b.drop_first());
            }
            lemma_key_lt_total(a.drop_first(), b.drop_first());
        }
    } else if a.len() == 0 && b.len() == 0 {
        assert(a =~= b);
    }
}

proof fn lemma_group_order(a: MissGroup, b: MissGroup, c: MissGroup)
    ensures
        !group_before(a, a),
        a.key@ != b.key@ ==> group_before(a, b) || group_before(b, a),
        group_before(a, b) && group_before(b, c) ==> group_before(a, c),
{
    lemma_key_lt_irreflexive(a.key@);
    if a.key@ != b.key@ {
        lemma_key_lt_total(a.key@, b.key@);
    }
    if group_before(a, b) && group_before(b, c) && key_lt(a.key@, b.key@) && key_lt(b.key@, c.key@) {
        lemma_key_lt_transitive(a.key@, b.key@, c.key@);
    }
}

fn key_lt_exec(a: &Vec<usize>, b: &Vec<usize>) -> (r: bool)
    ensures
        r == key_lt(a@, b@),
{
    let mut i: usize = 0;
    assert(a@.skip(0) =~= a@);
    assert(b@.skip(0) =~= b@);
    while i < a.len() && i < b.len()
        invariant
            i <= a.len(),
            i <= b.len(),
            key_lt(a@, b@) == key_lt(a@.skip(i as int), b@.skip(i as int)),
        decreases a.len() - i,
    {
        if a[i] < b[i] {
            return true;
        }
        if a[i] != b[i] {
            return false;
        }
        assert(a@.skip(i as int).drop_first() =~= a@.skip(i + 1));
        assert(b@.skip(i as int).drop_first() =~= b@.skip(i + 1));
        i += 1;
    }
    i == a.len() && i < b.len()
}

fn group_before_exec(a: &MissGroup, b: &MissGroup) -> (r: bool)
    ensures
        r == group_before(*a, *b),
{
    if a.gap != b.gap {
        a.gap > b.gap
    } else if a.count != b.count {
        a.count > b.count
    } else {
        key_lt_exec(&a.key, &b.key)
    }
}

fn keys_equal(a: &Vec<usize>, b: &Vec<usize>) -> (r: bool)
    ensures
        r == (a@ == b@),
{
    if a.len() != b.len() {
        return false;
    }
    let mut i: usize = 0;
    while i < a.len()
        invariant
            a.len() == b.len(),
            i <= a.len(),
            forall|t: int| 0 <= t < i ==> a@[t] == b@[t],
        decreases a.len() - i,
    {
        if a[i] != b[i] {
            return false;
        }
        i += 1;
    }
    assert(a@ =~= b@);
    true
}

proof fn lemma_no_group(syms: Seq<char>, cs: Seq<String>, k: Seq<usize>, t: int)
    requires
        group_count(syms, cs, k) == 0,
    ensures
        group_max(syms, cs, k, t) == 0,
    decreases cs.len(),
{
    if cs.len() > 0 {
        lemma_no_group(syms, cs.drop_last(), k, t);
    }
}

proof fn lemma_group_count_bound(syms: Seq<char>, cs: Seq<String>, k: Seq<usize>)
    ensures
        group_count(syms, cs, k) <= cs.len(),
    decreases cs.len(),
{
    if cs.len() > 0 {
        lemma_group_count_bound(syms, cs.drop_last(), k);
    }
}

proof fn lemma_group_max_bound(syms: Seq<char>, cs: Seq<String>, k: Seq<usize>, t: int)
    ensures
        0 <= group_max(syms, cs, k, t) <= 255,
    decreases cs.len(),
{
    if cs.len() > 0 {
        lemma_group_max_bound(syms, cs.drop_last(), k, t);
    }
}

/// The key and need vector of one certificate.
fn cert_parts(alpha: &Alphabet, c: &str) -> (r: (Vec<usize>, Vec<u8>))
    ensures
        r.0@ == cert_key(alpha@, c@),
        r.1@ == cert_vec(alpha@, c@),
        r.0@.len() <= alpha@.len(),
        forall|t: int| 0 <= t < r.0@.len() ==> (#[trigger] r.0@[t] as int) < alpha@.len(),
{
    let cnt = letter_counts(alpha, c);
    let ghost wc = word_counts(alpha@, c@);
    assert(cnt@ =~= wc);
    let key = present_letters(&cnt);
    let cl = cnt.len();
    proof {
        assert(cnt@.len() == cl);
        lemma_positive_positions(cnt@);
    }
    let mut v: Vec<u8> = Vec::new();
    let mut t: usize = 0;
    while t < key.len()
        invariant
            key@ == positive_positions(cnt@),
            cnt@ == wc,
            wc == word_counts(alpha@, c@),
            forall|q: int| 0 <= q < key@.len() ==> (#[trigger] key@[q] as int) < cnt@.len(),
            t <= key.len(),
            v@ == cert_vec(alpha@, c@).take(t as int),
        decreases key.len() - t,
    {
        let x = cnt[key[t]];
        let s: u8 = if x < 255 { x as u8 } else { 255 };
        v.push(s);
        assert(v@ =~= cert_vec(alpha@, c@).take(t + 1));
        t += 1;
    }
    assert(cert_vec(alpha@, c@).take(t as int) =~= cert_vec(alpha@, c@));
    (key, v)
}

/// The row of one group: its key with the summed largest needs, the cubes
/// that carry one of its letters, the shortfall and the group's size.
fn group_row(key: &Vec<usize>, m: &Vec<u8>, count: usize, idx: &CubeIndex, Ghost(syms): Ghost<Seq<char>>,
    Ghost(cs): Ghost<Seq<String>>) -> (g: MissGroup)
    requires
        m@.len() == key@.len(),
        255 * key@.len() <= i32::MAX,
        forall|t: int| 0 <= t < key@.len() ==> (#[trigger] key@[t] as int) < idx.letter_masks@.len(),
        forall|t: int| 0 <= t < key@.len() ==> (#[trigger] m@[t]) as int == group_max(syms, cs, key@, t),
    ensures
        g.key@ == key@,
        g.count == count,
        g.need == group_need(syms, cs, key@, key@.len() as int),
        g.have == union_cubes(idx.letter_masks@, key@).len(),
        g.gap == if g.need > g.have { g.need - g.have } else { 0 },
{
    let mut need: i32 = 0;
    let mut t: usize = 0;
    while t < m.len()
        invariant
            m@.len() == key@.len(),
            255 * key@.len() <= i32::MAX,
            forall|u: int| 0 <= u < key@.len() ==> (#[trigger] m@[u]) as int == group_max(syms, cs, key@, u),
            t <= m.len(),
            need as int == group_need(syms, cs, key@, t as int),
            0 <= need <= 255 * t,
        decreases m.len() - t,
    {
        need = need + m[t] as i32;
        t += 1;
    }
    let have = coverage_for_tuple(idx, key.as_slice());
    let gap: i32 = if need > have { need - have } else { 0 };
    let k2 = copy_key(key);
    MissGroup { key: k2, need, have, gap, count }
}

fn copy_key(v: &Vec<usize>) -> (r: Vec<usize>)
    ensures
        r@ == v@,
{
    let mut r: Vec<usize> = Vec::new();
    let mut i: usize = 0;
    while i < v.len()
        invariant
            i <= v.len(),
            r@ == v@.take(i as int),
        decreases v.len() - i,
    {
        r.push(v[i]);
        assert(r@ =~= v@.take(i + 1));
        i += 1;
    }
    assert(v@.take(i as int) =~= v@);
    r
}

/// Inserts a row into a list in report order.
fn insert_group(out: &mut Vec<MissGroup>, row: MissGroup)
    requires
        forall|a: int, b: int| 0 <= a < b < old(out)@.len() ==> group_before(#[trigger] old(out)@[a], #[trigger] old(out)@[b]),
        forall|a: int| 0 <= a < old(out)@.len() ==> (#[trigger] old(out)@[a]).key@ != row.key@,
    ensures
        forall|a: int, b: int| 0 <= a < b < final(out)@.len() ==> group_before(#[trigger] final(out)@[a], #[trigger] final(out)@[b]),
        exists|p: int| 0 <= p <= old(out)@.len() && final(out)@ == old(out)@.insert(p, row),
{
    let ghost ov = out@;
    let mut p: usize = 0;
    while p < out.len() && group_before_exec(&out[p], &row)
        invariant
            ov == out@,
            p <= out.len(),
            forall|a: int| 0 <= a < p ==> group_before(#[trigger] ov[a], row),
        decreases out.len() - p,
    {
        p += 1;
    }
    proof {
        if p < out.len() {
            lemma_group_order(ov[p as int], row, row);
            assert forall|a: int| p <= a < ov.len() implies group_before(row, #[trigger] ov[a]) by {
                if a > p {
                    lemma_group_order(row, ov[p as int], ov[a]);
                }
            }
        }
    }
    let ghost rv = row;
    out.insert(p, row);
    proof {
        let nv = out@;
        assert(nv =~= ov.insert(p as int, rv));
        assert forall|a: int, b: int| 0 <= a < b < nv.len() implies group_before(#[trigger] nv[a], #[trigger] nv[b]) by {
            if b < p {
                assert(nv[a] == ov[a] && nv[b] == ov[b]);
            } else if b == p {
                assert(nv[a] == ov[a]);
            } else if a == p {
                assert(nv[b] == ov[b - 1]);
            } else if a < p {
                assert(nv[a] == ov[a] && nv[b] == ov[b - 1]);
                lemma_group_order(ov[a], rv, ov[b - 1]);
            } else {
                assert(nv[a] == ov[a - 1] && nv[b] == ov[b - 1]);
            }
        }
    }
}

/// The row facts that the report states.
pub open spec fn row_ok(syms: Seq<char>, cs: Seq<String>, masks: Seq<u64>, g: MissGroup) -> bool {
    &&& g.key@.len() > 0
    &&& g.count == group_count(syms, cs, g.key@)
    &&& g.need == group_need(syms, cs, g.key@, g.key@.len() as int)
    &&& g.have == union_cubes(masks, g.key@).len()
    &&& g.gap == if g.need > g.have { g.need - g.have } else { 0 }
}

/// The failed words' certificates (`certs`, as strings of compiled letters)
/// grouped by letter set, each group with its summed largest needs, the
/// cubes that carry one of its letters, the shortfall and its size, in
/// report order.
pub fn miss_groups(alpha: &Alphabet, certs: &Vec<String>, idx: &CubeIndex) -> (r: Vec<MissGroup>)
    requires
        255 * alpha@.len() <= i32::MAX,
        idx.letter_masks@.len() == alpha@.len(),
    ensures
        forall|i: int, j: int| 0 <= i < j < r@.len() ==> group_before(#[trigger] r@[i], #[trigger] r@[j]),
        forall|i: int| 0 <= i < r@.len() ==> {
            let g = #[trigger] r@[i];
            &&& g.key@.len() > 0
            &&& g.count == group_count(alpha@, certs@, g.key@)
            &&& g.need == group_need(alpha@, certs@, g.key@, g.key@.len() as int)
            &&& g.have == union_cubes(idx.letter_masks@, g.key@).len()
            &&& g.gap == if g.need > g.have { g.need - g.have } else { 0 }
        },
        forall|k: Seq<usize>| k.len() > 0 && group_count(alpha@, certs@, k) > 0
            ==> exists|i: int| 0 <= i < r@.len() && (#[trigger] r@[i]).key@ == k,
{
    let ghost syms = alpha@;
    let n = crate::alphabet::n_letters(alpha);
    let mut keys: Vec<Vec<usize>> = Vec::new();
    let mut maxes: Vec<Vec<u8>> = Vec::new();
    let mut counts: Vec<usize> = Vec::new();
    let mut i: usize = 0;
    while i < certs.len()
        invariant
            syms == alpha@,
            n == syms.len(),
            i <= certs.len(),
            keys@.len() == maxes@.len(),
            keys@.len() == counts@.len(),
            forall|j: int| 0 <= j < keys@.len() ==> (#[trigger] keys@[j])@.len() > 0,
            forall|j: int| 0 <= j < keys@.len() ==> (#[trigger] keys@[j])@.len() <= n,
            forall|j: int| 0 <= j < keys@.len() ==> (#[trigger] maxes@[j])@.len() == keys@[j]@.len(),
            forall|j: int| 0 <= j < keys@.len() ==> (#[trigger] counts@[j]) == group_count(syms, certs@.take(i as int), keys@[j]@),
            forall|j: int, t: int| 0 <= j < keys@.len() && 0 <= t < keys@[j]@.len()
                ==> (#[trigger] maxes@[j]@[t]) as int == group_max(syms, certs@.take(i as int), keys@[j]@, t),
            forall|j: int, t: int| 0 <= j < keys@.len() && 0 <= t < keys@[j]@.len() ==> (#[trigger] keys@[j]@[t] as int) < n,
            forall|a: int, b: int| 0 <= a < b < keys@.len() ==> (#[trigger] keys@[a])@ != (#[trigger] keys@[b])@,
            forall|k: Seq<usize>| k.len() > 0 && group_count(syms, certs@.take(i as int), k) > 0
                ==> exists|j: int| 0 <= j < keys@.len() && (#[trigger] keys@[j])@ == k,
        decreases certs.len() - i,
    {
        let ghost cs0 = certs@.take(i as int);
        let ghost cs1 = certs@.take(i + 1);
        let ghost ko = keys@;
        let ghost mo = maxes@;
        let ghost co = counts@;
        proof {
            assert(cs1.drop_last() =~= cs0);
            assert(cs1.last() == certs@[i as int]);
        }
        let (key, v) = cert_parts(alpha, certs[i].as_str());
        let ghost kc = key@;
        proof {
            assert forall|k: Seq<usize>| k != kc implies #[trigger] group_count(syms, cs1, k) == group_count(syms, cs0, k) by {}
            assert forall|k: Seq<usize>, t: int| k != kc implies #[trigger] group_max(syms, cs1, k, t) == group_max(syms, cs0, k, t) by {}
        }
        if key.len() == 0 {
            proof {
                assert forall|k: Seq<usize>| k.len() > 0 && group_count(syms, cs1, k) > 0
                    implies exists|j: int| 0 <= j < keys@.len() && (#[trigger] keys@[j])@ == k by {
                    assert(group_count(syms, cs0, k) > 0);
                }
            }
        } else {
            let mut found: Option<usize> = None;
            let mut j: usize = 0;
            while j < keys.len()
                invariant
                    j <= keys.len(),
                    found matches Some(f) ==> f < keys@.len() && keys@[f as int]@ == kc,
                    found is None ==> forall|q: int| 0 <= q < j ==> (#[trigger] keys@[q])@ != kc,
                    kc == key@,
                decreases keys.len() - j,
            {
                if found.is_none() && keys_equal(&keys[j], &key) {
                    found = Some(j);
                }
                j += 1;
            }
            match found {
                Some(f) => {
                    let mut m = copy_bytes(&maxes[f]);
                    let mut t: usize = 0;
                    while t < m.len()
                        invariant
                            m@.len() == kc.len(),
                            mo[f as int]@.len() == kc.len(),
                            v@.len() == kc.len(),
                            t <= m.len(),
                            forall|q: int| 0 <= q < t ==> (#[trigger] m@[q]) as int == if v@[q] > mo[f as int]@[q] { v@[q] as int } else { mo[f as int]@[q] as int },
                            forall|q: int| t <= q < m@.len() ==> (#[trigger] m@[q]) == mo[f as int]@[q],
                        decreases m.len() - t,
                    {
                        if v[t] > m[t] {
                            m.set(t, v[t]);
                        }
                        t += 1;
                    }
                    maxes.set(f, m);
                    let c = counts[f];
                    proof {
                        lemma_group_count_bound(syms, cs0, kc);
                    }
                    counts.set(f, c + 1);
                    proof {
                        assert forall|j2: int| 0 <= j2 < keys@.len() implies (#[trigger] counts@[j2]) == group_count(syms, cs1, keys@[j2]@) by {
                            if j2 != f {
                                assert(ko[j2]@ != ko[f as int]@);
                            }
                        }
                        assert forall|j2: int, t2: int| 0 <= j2 < keys@.len() && 0 <= t2 < keys@[j2]@.len()
                            implies (#[trigger] maxes@[j2]@[t2]) as int == group_max(syms, cs1, keys@[j2]@, t2) by {
                            if j2 != f {
                                assert(ko[j2]@ != ko[f as int]@);
                                assert(maxes@[j2] == mo[j2]);
                            } else {
                                assert(mo[f as int]@[t2] as int == group_max(syms, cs0, kc, t2));
                            }
                        }
                        assert forall|k: Seq<usize>| k.len() > 0 && group_count(syms, cs1, k) > 0
                            implies exists|j2: int| 0 <= j2 < keys@.len() && (#[trigger] keys@[j2])@ == k by {
                            if k == kc {
                                assert(keys@[f as int]@ == k);
                            } else {
                                assert(group_count(syms, cs0, k) > 0);
                            }
                        }
                    }
                },
                None => {
                    proof {
                        assert(group_count(syms, cs0, kc) == 0) by {
                            if group_count(syms, cs0, kc) > 0 {
                                let q = choose|q: int| 0 <= q < ko.len() && (#[trigger] ko[q])@ == kc;
                            }
                        }
                    }
                    keys.push(key);
                    maxes.push(v);
                    counts.push(1);
                    proof {
                        assert forall|j2: int| 0 <= j2 < keys@.len() implies (#[trigger] counts@[j2]) == group_count(syms, cs1, keys@[j2]@) by {
                            if j2 < ko.len() {
                                assert(keys@[j2] == ko[j2]);
                            }
                        }
                        assert forall|j2: int, t2: int| 0 <= j2 < keys@.len() && 0 <= t2 < keys@[j2]@.len()
                            implies (#[trigger] maxes@[j2]@[t2]) as int == group_max(syms, cs1, keys@[j2]@, t2) by {
                            if j2 < ko.len() {
                                assert(keys@[j2] == ko[j2]);
                                assert(maxes@[j2] == mo[j2]);
                            } else {
                                lemma_no_group(syms, cs0, kc, t2);
                            }
                        }
                        assert forall|a: int, b: int| 0 <= a < b < keys@.len() implies (#[trigger] keys@[a])@ != (#[trigger] keys@[b])@ by {
                            if b == ko.len() {
                                assert(keys@[a] == ko[a]);
                            } else {
                                assert(keys@[a] == ko[a] && keys@[b] == ko[b]);
                            }
                        }
                        assert forall|k: Seq<usize>| k.len() > 0 && group_count(syms, cs1, k) > 0
                            implies exists|j2: int| 0 <= j2 < keys@.len() && (#[trigger] keys@[j2])@ == k by {
                            if k == kc {
                                assert(keys@[ko.len() as int]@ == k);
                            } else {
                                assert(group_count(syms, cs0, k) > 0);
                                let q = choose|q: int| 0 <= q < ko.len() && (#[trigger] ko[q])@ == k;
                                assert(keys@[q] == ko[q]);
                            }
                        }
                    }
                },
            }
        }
        i += 1;
    }
    assert(certs@.take(i as int) =~= certs@);
    let ghost masks = idx.letter_masks@;
    let mut out: Vec<MissGroup> = Vec::new();
    let mut j: usize = 0;
    while j < keys.len()
        invariant
            syms == alpha@,
            masks == idx.letter_masks@,
            n == syms.len(),
            255 * n <= i32::MAX,
            idx.letter_masks@.len() == n,
            keys@.len() == maxes@.len(),
            keys@.len() == counts@.len(),
            forall|q: int| 0 <= q < keys@.len() ==> (#[trigger] keys@[q])@.len() > 0,
            forall|q: int| 0 <= q < keys@.len() ==> (#[trigger] keys@[q])@.len() <= n,
            forall|q: int| 0 <= q < keys@.len() ==> (#[trigger] maxes@[q])@.len() == keys@[q]@.len(),
            forall|q: int| 0 <= q < keys@.len() ==> (#[trigger] counts@[q]) == group_count(syms, certs@, keys@[q]@),
            forall|q: int, t: int| 0 <= q < keys@.len() && 0 <= t < keys@[q]@.len()
                ==> (#[trigger] maxes@[q]@[t]) as int == group_max(syms, certs@, keys@[q]@, t),
            forall|q: int, t: int| 0 <= q < keys@.len() && 0 <= t < keys@[q]@.len() ==> (#[trigger] keys@[q]@[t] as int) < n,
            forall|a: int, b: int| 0 <= a < b < keys@.len() ==> (#[trigger] keys@[a])@ != (#[trigger] keys@[b])@,
            j <= keys.len(),
            forall|a: int, b: int| 0 <= a < b < out@.len() ==> group_before(#[trigger] out@[a], #[trigger] out@[b]),
            forall|a: int| 0 <= a < out@.len() ==> row_ok(syms, certs@, masks, #[trigger] out@[a]),
            forall|a: int, q: int| 0 <= a < out@.len() && j <= q < keys@.len() ==> (#[trigger] out@[a]).key@ != (#[trigger] keys@[q])@,
            forall|q: int| 0 <= q < j ==> exists|a: int| 0 <= a < out@.len() && (#[trigger] out@[a]).key@ == (#[trigger] keys@[q])@,
        decreases keys.len() - j,
    {
        let row = group_row(&keys[j], &maxes[j], counts[j], idx, Ghost(syms), Ghost(certs@));
        let ghost ov = out@;
        let ghost rv = row;
        proof {
            assert(row_ok(syms, certs@, masks, rv));
        }
        insert_group(&mut out, row);
        proof {
            let nv = out@;
            let p = choose|p: int| 0 <= p <= ov.len() && nv == ov.insert(p, rv);
            assert(nv.len() == ov.len() + 1);
            assert forall|a: int| 0 <= a < nv.len() implies row_ok(syms, certs@, masks, #[trigger] nv[a]) by {
                if a < p {
                    assert(nv[a] == ov[a]);
                } else if a > p {
                    assert(nv[a] == ov[a - 1]);
                } else {
                    assert(nv[a] == rv);
                }
            }
            assert forall|a: int, q: int| 0 <= a < nv.len() && j + 1 <= q < keys@.len() implies (#[trigger] nv[a]).key@ != (#[trigger] keys@[q])@ by {
                if a < p {
                    assert(nv[a] == ov[a]);
                } else if a > p {
                    assert(nv[a] == ov[a - 1]);
                } else {
                    assert(nv[a] == rv);
                    assert(keys@[j as int]@ != keys@[q]@);
                }
            }
            assert forall|q: int| 0 <= q < j + 1 implies exists|a: int| 0 <= a < nv.len() && (#[trigger] nv[a]).key@ == (#[trigger] keys@[q])@ by {
                if q < j {
                    let a = choose|a: int| 0 <= a < ov.len() && (#[trigger] ov[a]).key@ == (#[trigger] keys@[q])@;
                    if a < p {
                        assert(nv[a] == ov[a]);
                    } else {
                        assert(nv[a + 1] == ov[a]);
                    }
                } else {
                    assert(nv[p] == rv);
                }
            }
        }
        j += 1;
    }
    proof {
        assert forall|k: Seq<usize>| k.len() > 0 && group_count(syms, certs@, k) > 0
            implies exists|a: int| 0 <= a < out@.len() && (#[trigger] out@[a]).key@ == k by {
            let q = choose|q: int| 0 <= q < keys@.len() && (#[trigger] keys@[q])@ == k;
            let a = choose|a: int| 0 <= a < out@.len() && (#[trigger] out@[a]).key@ == (#[trigger] keys@[q])@;
        }
        assert forall|a: int| 0 <= a < out@.len() implies {
            let g = #[trigger] out@[a];
            &&& g.key@.len() > 0
            &&& g.count == group_count(syms, certs@, g.key@)
            &&& g.need == group_need(syms, certs@, g.key@, g.key@.len() as int)
            &&& g.have == union_cubes(idx.letter_masks@, g.key@).len()
            &&& g.gap == if g.need > g.have { g.need - g.have } else { 0 }
        } by {
            assert(row_ok(syms, certs@, masks, out@[a]));
        }
    }
    out
}

fn copy_bytes(v: &Vec<u8>) -> (r: Vec<u8>)
    ensures
        r@ == v@,
{
    let mut r: Vec<u8> = Vec::new();
    let mut i: usize = 0;
    while i < v.len()
        invariant
            i <= v.len(),
            r@ == v@.take(i as int),
        decreases v.len() - i,
    {
        r.push(v[i]);
        assert(r@ =~= v@.take(i + 1));
        i += 1;
    }
    assert(v@.take(i as int) =~= v@);
    r
}

} // verus!
