//! Constraint-blocking words: words that the current cubes cannot spell
//! because one letter occurs more often than the cubes carry it, or because
//! some small set of the word's most frequent letters needs more cubes than
//! carry any of those letters.

use vstd::prelude::*;
use crate::alphabet::{
    lemma_occurrences_bound, lemma_positive_positions, lemma_word_letters_bounded, letter_counts,
    occurrences, positive_positions, present_letters, word_letters, Alphabet,
};
use crate::catalog::views;
use crate::pareto::{uniform, vec_front};
use crate::stats::{
    active_union2_pub, active_union3_pub, active_union_vecs_pub, key_front, key_fronts, key_fronts_wf, need2,
    need3, need_key, pair_fronts, triple_fronts, Stats,
};
use crate::token_set::{lex_order, token_order};
use crate::types::{coverage_for_tuple, topk_for, topk_spec, union_cubes, CubeIndex};

verus! {

/* ------------------------------ the ranking ------------------------------ */

/// Letter `j` ranks ahead of letter `i`: it occurs more often in the word,
/// or as often and has the smaller index.
pub open spec fn ranks_before(c: Seq<usize>, j: usize, i: usize) -> bool {
    c[j as int] > c[i as int] || (c[j as int] == c[i as int] && j < i)
}

/// How many letters of `ids` rank ahead of `i`.
pub open spec fn rank_in(c: Seq<usize>, ids: Seq<usize>, i: usize) -> nat
    decreases ids.len(),
{
    if ids.len() == 0 {
        0
    } else {
        rank_in(c, ids.drop_last(), i) + if ranks_before(c, ids.last(), i) { 1nat } else { 0nat }
    }
}

/// The letters of `part` whose rank among `all` is below `lim`, in order.
pub open spec fn pool_from(c: Seq<usize>, all: Seq<usize>, part: Seq<usize>, lim: int) -> Seq<usize>
    decreases part.len(),
{
    if part.len() == 0 {
        Seq::empty()
    } else {
        let p = pool_from(c, all, part.drop_last(), lim);
        if rank_in(c, all, part.last()) < lim { p.push(part.last()) } else { p }
    }
}

/// The word's `lim` highest-ranked letters, in increasing index order.
pub open spec fn top_letters(c: Seq<usize>, lim: int) -> Seq<usize> {
    pool_from(c, positive_positions(c), positive_positions(c), lim)
}

/* ------------------------------ the need test ------------------------------ */

/// Counts as the signed integers the need computations take.
pub open spec fn signed_counts(c: Seq<usize>) -> Seq<i32> {
    Seq::new(c.len(), |l: int| c[l] as i32)
}

/// The most cubes the stored constraints of `key` ask for that the word's
/// counts can meet (0 when nothing is stored for it).
pub open spec fn key_need(st: Stats, key: Seq<usize>, c: Seq<i32>) -> int {
    if key.len() == 2 {
        need2(pair_fronts(st.r2v), key[0], key[1], c)
    } else if key.len() == 3 {
        need3(triple_fronts(st.r3v), key[0], key[1], key[2], c)
    } else if key_fronts(st.rhv).contains_key(key) {
        need_key(key_fronts(st.rhv)[key], key, c)
    } else {
        0
    }
}

/// A letter set blocks the word: it needs cubes, and more of them than
/// carry any of its letters.
pub open spec fn key_blocks(st: Stats, idx: CubeIndex, key: Seq<usize>, c: Seq<i32>) -> bool {
    let need = key_need(st, key, c);
    need != 0 && need > union_cubes(idx.letter_masks@, key).len()
}

/// Some `k`-letter subset of `pool[start..]`, appended in increasing order
/// to `prefix`, blocks the word.
pub open spec fn subset_blocks(st: Stats, idx: CubeIndex, c: Seq<i32>, pool: Seq<usize>, k: int, start: int,
    prefix: Seq<usize>) -> bool
    decreases pool.len() - start,
{
    if prefix.len() >= k {
        key_blocks(st, idx, prefix, c)
    } else if start >= pool.len() || start < 0 {
        false
    } else {
        subset_blocks(st, idx, c, pool, k, start + 1, prefix.push(pool[start]))
            || subset_blocks(st, idx, c, pool, k, start + 1, prefix)
    }
}

/// The `k`-letter sets taken from the word's highest-ranked letters (as many
/// as the size's budget allows) include a blocking one.
pub open spec fn size_blocks(st: Stats, idx: CubeIndex, c: Seq<usize>, n: usize, k: int) -> bool {
    let lim = if topk_spec(n, k as usize) > k { topk_spec(n, k as usize) } else { k };
    subset_blocks(st, idx, signed_counts(c), top_letters(c, lim), k, 0, Seq::empty())
}

/// A word blocks the constraints when one letter occurs more often than
/// its cube count `deg`, or when for some size `k` from 2 to `max_k` (and
/// at most the number of distinct letters) a `k`-letter set blocks it.
pub open spec fn word_blocks(st: Stats, idx: CubeIndex, c: Seq<usize>, deg: Seq<i32>, n: usize, max_k: usize) -> bool {
    ||| exists|i: int| 0 <= i < c.len() && #[trigger] c[i] > deg[i]
    ||| exists|k: int| 2 <= k <= max_k && k <= positive_positions(c).len() && #[trigger] size_blocks(st, idx, c, n, k)
}

/* --------------------------------- exec --------------------------------- */

fn rank_of(c: &Vec<usize>, ids: &Vec<usize>, i: usize) -> (r: usize)
    requires
        i < c.len(),
        forall|t: int| 0 <= t < ids@.len() ==> (#[trigger] ids@[t] as int) < c@.len(),
    ensures
        r == rank_in(c@, ids@, i),
{
    let mut r: usize = 0;
    let mut t: usize = 0;
    while t < ids.len()
        invariant
            i < c.len(),
            forall|q: int| 0 <= q < ids@.len() ==> (#[trigger] ids@[q] as int) < c@.len(),
            t <= ids.len(),
            r == rank_in(c@, ids@.take(t as int), i),
            r <= t,
        decreases ids.len() - t,
    {
        assert(ids@.take(t + 1).drop_last() =~= ids@.take(t as int));
        let j = ids[t];
        if c[j] > c[i] || (c[j] == c[i] && j < i) {
            r += 1;
        }
        t += 1;
    }
    assert(ids@.take(t as int) =~= ids@);
    r
}

/// The word's `lim` highest-ranked letters, in increasing index order.
fn top_letters_of(c: &Vec<usize>, lim: usize) -> (p: Vec<usize>)
    ensures
        p@ == top_letters(c@, lim as int),
        forall|t: int| 0 <= t < p@.len() ==> (#[trigger] p@[t] as int) < c@.len(),
{
    let ids = present_letters(c);
    let cl = c.len();
    proof {
        assert(c@.len() == cl);
        lemma_positive_positions(c@);
    }
    let mut p: Vec<usize> = Vec::new();
    let mut t: usize = 0;
    while t < ids.len()
        invariant
            ids@ == positive_positions(c@),
            forall|q: int| 0 <= q < ids@.len() ==> (#[trigger] ids@[q] as int) < c@.len(),
            t <= ids.len(),
            p@ == pool_from(c@, ids@, ids@.take(t as int), lim as int),
            forall|q: int| 0 <= q < p@.len() ==> (#[trigger] p@[q] as int) < c@.len(),
        decreases ids.len() - t,
    {
        assert(ids@.take(t + 1).drop_last() =~= ids@.take(t as int));
        let i = ids[t];
        let r = rank_of(c, &ids, i);
        if r < lim {
            p.push(i);
        }
        t += 1;
    }
    assert(ids@.take(t as int) =~= ids@);
    p
}

/// When fewer letters remain than a set still needs, no subset blocks.
proof fn lemma_too_few(st: Stats, idx: CubeIndex, c: Seq<i32>, pool: Seq<usize>, k: int, start: int, prefix: Seq<usize>)
    requires
        0 <= start <= pool.len(),
        prefix.len() < k,
        pool.len() - start < k - prefix.len(),
    ensures
        !subset_blocks(st, idx, c, pool, k, start, prefix),
    decreases pool.len() - start,
{
    if start < pool.len() {
        lemma_too_few(st, idx, c, pool, k, start + 1, prefix.push(pool[start]));
        lemma_too_few(st, idx, c, pool, k, start + 1, prefix);
    }
}

/// Whether the letter set `key` blocks the word.
fn key_blocks_exec(st: &Stats, idx: &CubeIndex, key: &Vec<usize>, c: &Vec<i32>) -> (r: bool)
    requires
        2 <= key@.len() && 255 * key@.len() <= i32::MAX,
        forall|t: int| 0 <= t < key@.len() ==> (#[trigger] key@[t] as int) < c@.len(),
        forall|t: int| 0 <= t < key@.len() ==> (#[trigger] key@[t] as int) < idx.letter_masks@.len(),
        key_fronts_wf(key_fronts(st.rhv)),
    ensures
        r == key_blocks(*st, *idx, key@, c@),
{
    let k = key.len();
    let need: i32 = if k == 2 {
        active_union2_pub(&st.r2v, key[0], key[1], c.as_slice())
    } else if k == 3 {
        active_union3_pub(&st.r3v, key[0], key[1], key[2], c.as_slice())
    } else {
        match key_front(&st.rhv, key) {
            Some(vecs) => {
                proof {
                    assert(uniform(key_fronts(st.rhv)[key@], key@.len()));
                    assert forall|q: int| 0 <= q < vecs@.len() implies (#[trigger] vecs@[q]@).len() >= key@.len() by {
                        assert(vec_front(vecs@)[q] == vecs@[q]@);
                    }
                }
                active_union_vecs_pub(vecs.as_slice(), key.as_slice(), c.as_slice())
            },
            None => 0,
        }
    };
    if need == 0 {
        return false;
    }
    let have = coverage_for_tuple(idx, key.as_slice());
    need > have
}

/// Whether some `k`-letter subset of `pool[start..]` after `prefix` blocks.
fn search_subsets(st: &Stats, idx: &CubeIndex, c: &Vec<i32>, pool: &Vec<usize>, k: usize, start: usize,
    prefix: &mut Vec<usize>) -> (r: bool)
    requires
        2 <= k && 255 * k <= i32::MAX,
        start <= pool.len(),
        old(prefix)@.len() <= k,
        forall|t: int| 0 <= t < pool@.len() ==> (#[trigger] pool@[t] as int) < c@.len(),
        forall|t: int| 0 <= t < pool@.len() ==> (#[trigger] pool@[t] as int) < idx.letter_masks@.len(),
        forall|t: int| 0 <= t < old(prefix)@.len() ==> (#[trigger] old(prefix)@[t] as int) < c@.len(),
        forall|t: int| 0 <= t < old(prefix)@.len() ==> (#[trigger] old(prefix)@[t] as int) < idx.letter_masks@.len(),
        key_fronts_wf(key_fronts(st.rhv)),
    ensures
        final(prefix)@ == old(prefix)@,
        r == subset_blocks(*st, *idx, c@, pool@, k as int, start as int, old(prefix)@),
    decreases pool.len() - start,
{
    if prefix.len() == k {
        return key_blocks_exec(st, idx, prefix, c);
    }
    if pool.len() - start < k - prefix.len() {
        proof {
            lemma_too_few(*st, *idx, c@, pool@, k as int, start as int, prefix@);
        }
        return false;
    }
    let ghost pre = prefix@;
    prefix.push(pool[start]);
    let took = search_subsets(st, idx, c, pool, k, start + 1, prefix);
    prefix.pop();
    assert(prefix@ =~= pre);
    if took {
        return true;
    }
    search_subsets(st, idx, c, pool, k, start + 1, prefix)
}

/// Whether the word `w` blocks the constraints of the statistics on the
/// cubes of `idx`, whose letter counts are `deg`.
pub fn is_constraint_blocker(alpha: &Alphabet, w: &str, idx: &CubeIndex, st: &Stats, max_k: usize, deg: &[i32])
    -> (r: bool)
    requires
        w@.len() < i32::MAX,
        255 * alpha@.len() <= i32::MAX,
        deg@.len() == alpha@.len(),
        idx.letter_masks@.len() == alpha@.len(),
        key_fronts_wf(key_fronts(st.rhv)),
    ensures
        r == word_blocks(*st, *idx, letter_counts_spec(alpha, w@), deg@, alpha@.len() as usize, max_k),
{
    let ghost syms = alpha@;
    let n = crate::alphabet::n_letters(alpha);
    let counts = letter_counts(alpha, w);
    let ghost cu = counts@;
    proof {
        assert(cu =~= letter_counts_spec(alpha, w@));
        assert(alpha@.len() as usize == n);
        lemma_word_letters_bounded(syms, w@);
    }
    let mut signed: Vec<i32> = Vec::new();
    let mut i: usize = 0;
    while i < n
        invariant
            n == syms.len(),
            syms == alpha@,
            cu == letter_counts_spec(alpha, w@),
            alpha@.len() as usize == n,
            cu == counts@,
            cu.len() == n,
            w@.len() < i32::MAX,
            forall|l: int| 0 <= l < n ==> #[trigger] cu[l] == occurrences(word_letters(syms, w@), l),
            word_letters(syms, w@).len() <= w@.len(),
            i <= n,
            signed@ == signed_counts(cu).take(i as int),
        decreases n - i,
    {
        proof {
            lemma_occurrences_bound(word_letters(syms, w@), i as int);
        }
        signed.push(counts[i] as i32);
        assert(signed@ =~= signed_counts(cu).take(i + 1));
        i += 1;
    }
    assert(signed@ =~= signed_counts(cu));
    proof {
        assert forall|q: int| 0 <= q < n implies #[trigger] cu[q] <= w@.len() by {
            lemma_occurrences_bound(word_letters(syms, w@), q);
        }
    }
    let mut l: usize = 0;
    while l < n
        invariant
            n == syms.len(),
            syms == alpha@,
            cu == letter_counts_spec(alpha, w@),
            alpha@.len() as usize == n,
            cu == counts@,
            cu.len() == n,
            deg@.len() == n,
            signed@ == signed_counts(cu),
            w@.len() < i32::MAX,
            forall|q: int| 0 <= q < n ==> #[trigger] cu[q] <= w@.len(),
            l <= n,
            forall|q: int| 0 <= q < l ==> !(#[trigger] cu[q] > deg@[q]),
        decreases n - l,
    {
        if signed[l] > deg[l] {
            assert(cu[l as int] > deg@[l as int]);
            assert(word_blocks(*st, *idx, cu, deg@, n, max_k));
            return true;
        }
        l += 1;
    }
    let ids = present_letters(&counts);
    proof {
        lemma_positive_positions(cu);
    }
    let m = ids.len();
    let mut k: usize = 2;
    while k <= max_k && k <= m
        invariant
            n == syms.len(),
            syms == alpha@,
            cu == letter_counts_spec(alpha, w@),
            alpha@.len() as usize == n,
            cu == counts@,
            cu.len() == n,
            deg@.len() == n,
            idx.letter_masks@.len() == n,
            signed@ == signed_counts(cu),
            m == positive_positions(cu).len(),
            m <= n,
            255 * n <= i32::MAX,
            key_fronts_wf(key_fronts(st.rhv)),
            forall|q: int| 0 <= q < n ==> !(#[trigger] cu[q] > deg@[q]),
            2 <= k,
            forall|j: int| 2 <= j < k ==> !#[trigger] size_blocks(*st, *idx, cu, n, j),
        decreases max_k + 1 - k,
    {
        let t = topk_for(n, k);
        let lim = if t > k { t } else { k };
        let pool = top_letters_of(&counts, lim);
        let mut prefix: Vec<usize> = Vec::new();
        let hit = search_subsets(st, idx, &signed, &pool, k, 0, &mut prefix);
        assert(hit == size_blocks(*st, *idx, cu, n, k as int));
        if hit {
            assert(word_blocks(*st, *idx, cu, deg@, n, max_k));
            return true;
        }
        k += 1;
    }
    proof {
        assert forall|j: int| 2 <= j <= max_k && j <= positive_positions(cu).len() implies
            !#[trigger] size_blocks(*st, *idx, cu, n, j) by {
        }
    }
    false
}

proof fn lemma_pool_len(c: Seq<usize>, all: Seq<usize>, part: Seq<usize>, lim: int)
    ensures
        pool_from(c, all, part, lim).len() <= part.len(),
    decreases part.len(),
{
    if part.len() > 0 {
        lemma_pool_len(c, all, part.drop_last(), lim);
    }
}

/// The letter counts of a word, as `letter_counts` computes them.
pub open spec fn letter_counts_spec(alpha: &Alphabet, w: Seq<char>) -> Seq<usize> {
    Seq::new(alpha@.len(), |l: int| occurrences(word_letters(alpha@, w), l) as usize)
}

/// The first `limit` of the words, each once, in increasing order.
pub fn first_sorted(words: &Vec<String>, limit: usize) -> (r: Vec<String>)
    ensures
        views(r@) == lex_order(views(words@)).take(
            if limit < lex_order(views(words@)).len() { limit as int } else { lex_order(views(words@)).len() as int }),
{
    let mut u = token_order(words);
    if u.len() > limit {
        u.truncate(limit);
    }
    let ghost l = lex_order(views(words@));
    assert(views(u@) =~= l.take(if limit < l.len() { limit as int } else { l.len() as int }));
    u
}

/// The words, in order, that block the constraints.
pub open spec fn blocking_words(st: Stats, idx: CubeIndex, alpha: &Alphabet, ws: Seq<String>, deg: Seq<i32>,
    max_k: usize) -> Seq<Seq<char>>
    decreases ws.len(),
{
    if ws.len() == 0 {
        Seq::empty()
    } else {
        let prev = blocking_words(st, idx, alpha, ws.drop_last(), deg, max_k);
        if word_blocks(st, idx, letter_counts_spec(alpha, ws.last()@), deg, alpha@.len() as usize, max_k) {
            prev.push(ws.last()@)
        } else {
            prev
        }
    }
}

/// The constraint-blocking words of a list: each blocking word once, in
/// increasing order, at most `limit` of them.
pub fn constraint_blockers(alpha: &Alphabet, words: &Vec<String>, idx: &CubeIndex, st: &Stats, max_k: usize,
    limit: usize, deg: &[i32]) -> (r: Vec<String>)
    requires
        forall|i: int| 0 <= i < words@.len() ==> (#[trigger] words@[i])@.len() < i32::MAX,
        255 * alpha@.len() <= i32::MAX,
        deg@.len() == alpha@.len(),
        idx.letter_masks@.len() == alpha@.len(),
        key_fronts_wf(key_fronts(st.rhv)),
    ensures
        ({
            let l = lex_order(blocking_words(*st, *idx, alpha, words@, deg@, max_k));
            views(r@) == l.take(if limit < l.len() { limit as int } else { l.len() as int })
        }),
{
    let mut hits: Vec<String> = Vec::new();
    let mut i: usize = 0;
    while i < words.len()
        invariant
            forall|q: int| 0 <= q < words@.len() ==> (#[trigger] words@[q])@.len() < i32::MAX,
            255 * alpha@.len() <= i32::MAX,
            deg@.len() == alpha@.len(),
            idx.letter_masks@.len() == alpha@.len(),
            key_fronts_wf(key_fronts(st.rhv)),
            i <= words.len(),
            views(hits@) == blocking_words(*st, *idx, alpha, words@.take(i as int), deg@, max_k),
        decreases words.len() - i,
    {
        assert(words@.take(i + 1).drop_last() =~= words@.take(i as int));
        let w = words[i].as_str();
        if is_constraint_blocker(alpha, w, idx, st, max_k, deg) {
            let ghost hv = views(hits@);
            hits.push(words[i].clone());
            assert(views(hits@) =~= hv.push(words@[i as int]@));
        }
        i += 1;
    }
    assert(words@.take(i as int) =~= words@);
    first_sorted(&hits, limit)
}

} // verus!
