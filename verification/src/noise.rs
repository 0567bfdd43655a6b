//! Heuristics that flag corpus entries which look like noise rather than
//! words: long runs of one grapheme, short blocks repeated back to back,
//! runs of `x`, stammering openings, long vowel runs and words made of one
//! chunk repeated three times or more.  Most tests work on extended grapheme
//! clusters, which the `unicode-segmentation` crate computes.

use vstd::prelude::*;
use crate::text::{chars_of, chars_equal};
use crate::lexorder::{char_seq_lt, chars_lt, strictly_sorted, lemma_lt_total, lemma_lt_transitive};
use unicode_segmentation::UnicodeSegmentation;

verus! {

broadcast use vstd::string::group_string_axioms;

/// The extended grapheme clusters of a string, in order, each as its scalars.
pub uninterp spec fn grapheme_clusters(s: Seq<char>) -> Seq<Seq<char>>;

/// The clusters held in a vector, by their scalars.
pub open spec fn clusters_view(g: Seq<Vec<char>>) -> Seq<Seq<char>> {
    Seq::new(g.len(), |i: int| g[i]@)
}

/// `UnicodeSegmentation::graphemes(s, true)`: the extended grapheme clusters
/// of `s`, each converted to its scalars.  The segmentation rules of UAX #29
/// are not restated; the result is named `grapheme_clusters(s@)`, which is a
/// function of the text alone.
#[verifier::external_body]
fn graphemes_of(s: &str) -> (g: Vec<Vec<char>>)
    ensures
        clusters_view(g@) == grapheme_clusters(s@),
{
    UnicodeSegmentation::graphemes(s, true).map(|c: &str| c.chars().collect()).collect()
}

/* ---------------------------- specifications ---------------------------- */

/// Clusters `j` and `j + k` are equal.
pub open spec fn same_at(g: Seq<Seq<char>>, j: int, k: int) -> bool {
    g[j] == g[j + k]
}

/// The `len` clusters from `i` on are all equal to cluster `i`.
pub open spec fn window_same(g: Seq<Seq<char>>, i: int, len: int) -> bool {
    forall|j: int| i <= j < i + len ==> #[trigger] g[j] == g[i]
}

/// Some `m` consecutive clusters are equal.
pub open spec fn has_cluster_run(g: Seq<Seq<char>>, m: int) -> bool {
    exists|i: int| 0 <= i && i + m <= g.len() && #[trigger] window_same(g, i, m)
}

/// The `len` clusters from `i` on repeat with period `k`.
pub open spec fn periodic_window(g: Seq<Seq<char>>, i: int, len: int, k: int) -> bool {
    forall|j: int| i <= j && j + k < i + len ==> #[trigger] same_at(g, j, k)
}

/// A block of `k` clusters occurs `reps` times back to back.
pub open spec fn has_repeated_block(g: Seq<Seq<char>>, k: int, reps: int) -> bool {
    &&& k > 0
    &&& reps >= 2
    &&& exists|i: int| 0 <= i && i + k * reps <= g.len() && #[trigger] periodic_window(g, i, k * reps, k)
}

/// The `len` clusters from `i` on all equal `t`.
pub open spec fn window_all(g: Seq<Seq<char>>, i: int, len: int, t: Seq<char>) -> bool {
    forall|j: int| i <= j < i + len ==> #[trigger] g[j] == t
}

/// `m` consecutive clusters equal to `t`.
pub open spec fn has_run_of(g: Seq<Seq<char>>, t: Seq<char>, m: int) -> bool {
    exists|i: int| 0 <= i && i + m <= g.len() && #[trigger] window_all(g, i, m, t)
}

/// The two clusters spell one of `ch`, `co`, `oh`, `nh`, `ho`.
pub open spec fn is_lead_pair(a: Seq<char>, b: Seq<char>) -> bool {
    a.len() == 1 && b.len() == 1 && (
        (a[0] == 'c' && (b[0] == 'h' || b[0] == 'o'))
        || (a[0] == 'o' && b[0] == 'h')
        || (a[0] == 'n' && b[0] == 'h')
        || (a[0] == 'h' && b[0] == 'o'))
}

/// Clusters `2r` and `2r + 1` form a stammering pair.
pub open spec fn lead_pair_at(g: Seq<Seq<char>>, r: int) -> bool {
    is_lead_pair(g[2 * r], g[2 * r + 1])
}

/// The word opens with `m` stammering pairs.
pub open spec fn opens_with_pairs(g: Seq<Seq<char>>, m: int) -> bool {
    2 * m <= g.len() && forall|r: int| 0 <= r < m ==> #[trigger] lead_pair_at(g, r)
}

/// The clusters are periodic with period `p` over the whole word.
pub open spec fn periodic_all(g: Seq<Seq<char>>, p: int) -> bool {
    forall|j: int| 0 <= j && j + p < g.len() ==> #[trigger] same_at(g, j, p)
}

/// The word is one chunk of at least two clusters repeated at least three times.
pub open spec fn chunk_tripled(g: Seq<Seq<char>>) -> bool {
    exists|p: int| 2 <= p && 3 * p <= g.len() && (g.len() as int) % p == 0 && #[trigger] periodic_all(g, p)
}

/// A vowel of the Latin, Cyrillic or Greek script.
pub open spec fn is_vowel(c: char) -> bool {
    c == 'a' || c == 'e' || c == 'i' || c == 'o' || c == 'u' || c == 'y'
    || c == 'A' || c == 'E' || c == 'I' || c == 'O' || c == 'U' || c == 'Y'
    || c == 'а' || c == 'е' || c == 'ё' || c == 'и' || c == 'о' || c == 'у' || c == 'ы'
    || c == 'э' || c == 'ю' || c == 'я'
    || c == 'А' || c == 'Е' || c == 'Ё' || c == 'И' || c == 'О' || c == 'У' || c == 'Ы'
    || c == 'Э' || c == 'Ю' || c == 'Я'
    || c == 'α' || c == 'ε' || c == 'η' || c == 'ι' || c == 'ο' || c == 'υ' || c == 'ω'
    || c == 'Α' || c == 'Ε' || c == 'Η' || c == 'Ι' || c == 'Ο' || c == 'Υ' || c == 'Ω'
}

/// The `len` scalars from `i` on are vowels.
pub open spec fn vowel_window(w: Seq<char>, i: int, len: int) -> bool {
    forall|j: int| i <= j < i + len ==> #[trigger] is_vowel(w[j])
}

/// Some `m` consecutive scalars are vowels.
pub open spec fn has_vowel_run(w: Seq<char>, m: int) -> bool {
    exists|i: int| 0 <= i && i + m <= w.len() && #[trigger] vowel_window(w, i, m)
}

/// The noise tests, given the word's scalars `w` and its clusters `g`.
pub open spec fn noisy_parts(g: Seq<Seq<char>>, w: Seq<char>) -> bool {
    ||| has_cluster_run(g, 5)
    ||| has_repeated_block(g, 2, 4)
    ||| has_repeated_block(g, 3, 3)
    ||| has_run_of(g, seq!['x'], 3)
    ||| opens_with_pairs(g, 3)
    ||| has_vowel_run(w, 5)
    ||| chunk_tripled(g)
}

/// A non-empty word that fails one of the noise tests.
pub open spec fn noisy_word(w: Seq<char>) -> bool {
    w.len() > 0 && noisy_parts(grapheme_clusters(w), w)
}

/// The noise tests, stated directly on the clusters `g` and scalars `w`: a
/// word is noisy exactly when five equal clusters stand in a row, a block of
/// two clusters repeats four times back to back, a block of three clusters
/// repeats three times, three `x` clusters stand in a row, the word opens
/// with three stammering pairs (`ch`, `co`, `oh`, `nh`, `ho`), five vowels
/// stand in a row, or the whole word is one chunk of two or more clusters
/// repeated three or more times.
pub proof fn law_noise_tests(g: Seq<Seq<char>>, w: Seq<char>)
    ensures
        (exists|i: int| 0 <= i && i + 5 <= g.len() && #[trigger] g[i] == g[i + 4] && forall|j: int| i <= j < i + 5 ==> #[trigger] g[j] == g[i])
            ==> noisy_parts(g, w),
        (exists|i: int| 0 <= i && i + 8 <= g.len() && #[trigger] g[i] == g[i + 2] && forall|j: int| i <= j < i + 6 ==> #[trigger] g[j] == g[j + 2])
            ==> noisy_parts(g, w),
        (exists|i: int| 0 <= i && i + 9 <= g.len() && #[trigger] g[i] == g[i + 3] && forall|j: int| i <= j < i + 6 ==> #[trigger] g[j] == g[j + 3])
            ==> noisy_parts(g, w),
        (exists|i: int| 0 <= i && i + 3 <= g.len() && #[trigger] g[i] == seq!['x'] && forall|j: int| i <= j < i + 3 ==> #[trigger] g[j] == seq!['x'])
            ==> noisy_parts(g, w),
        (6 <= g.len() && forall|r: int| 0 <= r < 3 ==> {
            let a = #[trigger] g[2 * r];
            let b = g[2 * r + 1];
            a.len() == 1 && b.len() == 1 && ((a[0] == 'c' && (b[0] == 'h' || b[0] == 'o')) || (a[0] == 'o' && b[0] == 'h')
                || (a[0] == 'n' && b[0] == 'h') || (a[0] == 'h' && b[0] == 'o'))
        }) ==> noisy_parts(g, w),
        (exists|i: int| 0 <= i && i + 5 <= w.len() && is_vowel(#[trigger] w[i]) && forall|j: int| i <= j < i + 5 ==> is_vowel(#[trigger] w[j]))
            ==> noisy_parts(g, w),
        (exists|p: int| 2 <= p && 3 * p <= g.len() && (g.len() as int) % p == 0 && #[trigger] g[p] == g[0]
            && forall|j: int| 0 <= j && j + p < g.len() ==> #[trigger] g[j] == g[j + p]) ==> noisy_parts(g, w),
        noisy_parts(g, w) ==> {
            ||| (exists|i: int| 0 <= i && i + 5 <= g.len() && #[trigger] g[i] == g[i + 4] && forall|j: int| i <= j < i + 5 ==> #[trigger] g[j] == g[i])
            ||| (exists|i: int| 0 <= i && i + 8 <= g.len() && #[trigger] g[i] == g[i + 2] && forall|j: int| i <= j < i + 6 ==> #[trigger] g[j] == g[j + 2])
            ||| (exists|i: int| 0 <= i && i + 9 <= g.len() && #[trigger] g[i] == g[i + 3] && forall|j: int| i <= j < i + 6 ==> #[trigger] g[j] == g[j + 3])
            ||| (exists|i: int| 0 <= i && i + 3 <= g.len() && #[trigger] g[i] == seq!['x'] && forall|j: int| i <= j < i + 3 ==> #[trigger] g[j] == seq!['x'])
            ||| (6 <= g.len() && forall|r: int| 0 <= r < 3 ==> is_lead_pair(#[trigger] g[2 * r], g[2 * r + 1]))
            ||| (exists|i: int| 0 <= i && i + 5 <= w.len() && is_vowel(#[trigger] w[i]) && forall|j: int| i <= j < i + 5 ==> is_vowel(#[trigger] w[j]))
            ||| (exists|p: int| 2 <= p && 3 * p <= g.len() && (g.len() as int) % p == 0 && #[trigger] g[p] == g[0]
                && forall|j: int| 0 <= j && j + p < g.len() ==> #[trigger] g[j] == g[j + p])
        },
{
    if exists|i: int| 0 <= i && i + 5 <= g.len() && #[trigger] g[i] == g[i + 4] && forall|j: int| i <= j < i + 5 ==> #[trigger] g[j] == g[i] {
        let i = choose|i: int| 0 <= i && i + 5 <= g.len() && #[trigger] g[i] == g[i + 4] && forall|j: int| i <= j < i + 5 ==> #[trigger] g[j] == g[i];
        assert(window_same(g, i, 5));
    }
    if exists|i: int| 0 <= i && i + 8 <= g.len() && #[trigger] g[i] == g[i + 2] && forall|j: int| i <= j < i + 6 ==> #[trigger] g[j] == g[j + 2] {
        let i = choose|i: int| 0 <= i && i + 8 <= g.len() && #[trigger] g[i] == g[i + 2] && forall|j: int| i <= j < i + 6 ==> #[trigger] g[j] == g[j + 2];
        assert forall|j: int| i <= j && j + 2 < i + 2 * 4 implies #[trigger] same_at(g, j, 2) by {
            assert(g[j] == g[j + 2]);
        }
        assert(periodic_window(g, i, 2int * 4int, 2));
    }
    if exists|i: int| 0 <= i && i + 9 <= g.len() && #[trigger] g[i] == g[i + 3] && forall|j: int| i <= j < i + 6 ==> #[trigger] g[j] == g[j + 3] {
        let i = choose|i: int| 0 <= i && i + 9 <= g.len() && #[trigger] g[i] == g[i + 3] && forall|j: int| i <= j < i + 6 ==> #[trigger] g[j] == g[j + 3];
        assert forall|j: int| i <= j && j + 3 < i + 3 * 3 implies #[trigger] same_at(g, j, 3) by {
            assert(g[j] == g[j + 3]);
        }
        assert(periodic_window(g, i, 3int * 3int, 3));
    }
    if exists|i: int| 0 <= i && i + 3 <= g.len() && #[trigger] g[i] == seq!['x'] && forall|j: int| i <= j < i + 3 ==> #[trigger] g[j] == seq!['x'] {
        let i = choose|i: int| 0 <= i && i + 3 <= g.len() && #[trigger] g[i] == seq!['x'] && forall|j: int| i <= j < i + 3 ==> #[trigger] g[j] == seq!['x'];
        assert(window_all(g, i, 3, seq!['x']));
    }
    if 6 <= g.len() && forall|r: int| 0 <= r < 3 ==> {
        let a = #[trigger] g[2 * r];
        let b = g[2 * r + 1];
        a.len() == 1 && b.len() == 1 && ((a[0] == 'c' && (b[0] == 'h' || b[0] == 'o')) || (a[0] == 'o' && b[0] == 'h')
            || (a[0] == 'n' && b[0] == 'h') || (a[0] == 'h' && b[0] == 'o'))
    } {
        assert forall|r: int| 0 <= r < 3 implies #[trigger] lead_pair_at(g, r) by {
            assert(g[2 * r] == g[2 * r]);
        }
        assert(opens_with_pairs(g, 3));
    }
    if exists|i: int| 0 <= i && i + 5 <= w.len() && is_vowel(#[trigger] w[i]) && forall|j: int| i <= j < i + 5 ==> is_vowel(#[trigger] w[j]) {
        let i = choose|i: int| 0 <= i && i + 5 <= w.len() && is_vowel(#[trigger] w[i]) && forall|j: int| i <= j < i + 5 ==> is_vowel(#[trigger] w[j]);
        assert(vowel_window(w, i, 5));
    }
    if exists|p: int| 2 <= p && 3 * p <= g.len() && (g.len() as int) % p == 0 && #[trigger] g[p] == g[0]
        && forall|j: int| 0 <= j && j + p < g.len() ==> #[trigger] g[j] == g[j + p] {
        let p = choose|p: int| 2 <= p && 3 * p <= g.len() && (g.len() as int) % p == 0 && #[trigger] g[p] == g[0]
            && forall|j: int| 0 <= j && j + p < g.len() ==> #[trigger] g[j] == g[j + p];
        assert forall|j: int| 0 <= j && j + p < g.len() implies #[trigger] same_at(g, j, p) by {
            assert(g[j] == g[j + p]);
        }
        assert(periodic_all(g, p));
    }
    if noisy_parts(g, w) {
        if has_cluster_run(g, 5) {
            let i = choose|i: int| 0 <= i && i + 5 <= g.len() && #[trigger] window_same(g, i, 5);
            assert(forall|j: int| i <= j < i + 5 ==> #[trigger] g[j] == g[i]);
            assert(g[i] == g[i + 4]);
        } else if has_repeated_block(g, 2, 4) {
            let i = choose|i: int| 0 <= i && i + 2 * 4 <= g.len() && #[trigger] periodic_window(g, i, 2int * 4int, 2);
            assert forall|j: int| i <= j < i + 6 implies #[trigger] g[j] == g[j + 2] by {
                assert(same_at(g, j, 2));
            }
            assert(g[i] == g[i + 2]);
        } else if has_repeated_block(g, 3, 3) {
            let i = choose|i: int| 0 <= i && i + 3 * 3 <= g.len() && #[trigger] periodic_window(g, i, 3int * 3int, 3);
            assert forall|j: int| i <= j < i + 6 implies #[trigger] g[j] == g[j + 3] by {
                assert(same_at(g, j, 3));
            }
            assert(g[i] == g[i + 3]);
        } else if has_run_of(g, seq!['x'], 3) {
            let i = choose|i: int| 0 <= i && i + 3 <= g.len() && #[trigger] window_all(g, i, 3, seq!['x']);
            assert(forall|j: int| i <= j < i + 3 ==> #[trigger] g[j] == seq!['x']);
            assert(g[i] == seq!['x']);
        } else if opens_with_pairs(g, 3) {
            assert forall|r: int| 0 <= r < 3 implies is_lead_pair(#[trigger] g[2 * r], g[2 * r + 1]) by {
                assert(lead_pair_at(g, r));
            }
        } else if has_vowel_run(w, 5) {
            let i = choose|i: int| 0 <= i && i + 5 <= w.len() && #[trigger] vowel_window(w, i, 5);
            assert(forall|j: int| i <= j < i + 5 ==> is_vowel(#[trigger] w[j]));
            assert(is_vowel(w[i]));
        } else {
            let p = choose|p: int| 2 <= p && 3 * p <= g.len() && (g.len() as int) % p == 0 && #[trigger] periodic_all(g, p);
            assert forall|j: int| 0 <= j && j + p < g.len() implies #[trigger] g[j] == g[j + p] by {
                assert(same_at(g, j, p));
            }
            assert(g[0] == g[0 + p]);
        }
    }
}

/* ---------------------------- implementation ---------------------------- */

fn cluster_eq(g: &Vec<Vec<char>>, a: usize, b: usize) -> (r: bool)
    requires
        a < g.len(),
        b < g.len(),
    ensures
        r == (clusters_view(g@)[a as int] == clusters_view(g@)[b as int]),
{
    chars_equal(&g[a], &g[b])
}

fn check_window_same(g: &Vec<Vec<char>>, i: usize, m: usize) -> (r: bool)
    requires
        i + m <= g.len(),
    ensures
        r == window_same(clusters_view(g@), i as int, m as int),
{
    let ghost cv = clusters_view(g@);
    let mut j: usize = i;
    while j < i + m
        invariant
            i <= j <= i + m,
            i + m <= g.len(),
            cv == clusters_view(g@),
            forall|t: int| i <= t < j ==> #[trigger] cv[t] == cv[i as int],
        decreases i + m - j,
    {
        if !cluster_eq(g, j, i) {
            assert(!window_same(cv, i as int, m as int)) by {
                assert(cv[j as int] != cv[i as int]);
            }
            return false;
        }
        j += 1;
    }
    true
}

fn cluster_run(g: &Vec<Vec<char>>, m: usize) -> (r: bool)
    ensures
        r == has_cluster_run(clusters_view(g@), m as int),
{
    let ghost cv = clusters_view(g@);
    if m > g.len() {
        return false;
    }
    let mut i: usize = 0;
    while i <= g.len() - m
        invariant
            m <= g.len(),
            cv == clusters_view(g@),
            forall|t: int| 0 <= t < i ==> !#[trigger] window_same(cv, t, m as int),
        decreases g.len() - i,
    {
        if check_window_same(g, i, m) {
            return true;
        }
        i += 1;
    }
    assert(!has_cluster_run(cv, m as int)) by {
        if has_cluster_run(cv, m as int) {
            let t = choose|t: int| 0 <= t && t + m <= cv.len() && #[trigger] window_same(cv, t, m as int);
            assert(t < i);
        }
    }
    false
}

fn check_periodic(g: &Vec<Vec<char>>, i: usize, len: usize, k: usize) -> (r: bool)
    requires
        i + len <= g.len(),
    ensures
        r == periodic_window(clusters_view(g@), i as int, len as int, k as int),
{
    let ghost cv = clusters_view(g@);
    if k >= len {
        return true;
    }
    let mut j: usize = i;
    while j < i + len - k
        invariant
            i <= j,
            k < len,
            i + len <= g.len(),
            cv == clusters_view(g@),
            forall|t: int| i <= t < j ==> #[trigger] same_at(cv, t, k as int),
        decreases i + len - j,
    {
        if !cluster_eq(g, j, j + k) {
            assert(!periodic_window(cv, i as int, len as int, k as int)) by {
                assert(!same_at(cv, j as int, k as int));
            }
            return false;
        }
        j += 1;
    }
    true
}

fn repeated_block(g: &Vec<Vec<char>>, k: usize, reps: usize) -> (r: bool)
    requires
        k <= 3,
        reps <= 4,
    ensures
        r == has_repeated_block(clusters_view(g@), k as int, reps as int),
{
    let ghost cv = clusters_view(g@);
    if k == 0 || reps < 2 {
        return false;
    }
    assert(k * reps <= 12) by (nonlinear_arith)
        requires
            k <= 3,
            reps <= 4,
    ;
    let len: usize = k * reps;
    if len > g.len() {
        return false;
    }
    let mut i: usize = 0;
    while i <= g.len() - len
        invariant
            k > 0,
            reps >= 2,
            len == k * reps,
            len <= g.len(),
            cv == clusters_view(g@),
            forall|t: int| 0 <= t < i ==> !#[trigger] periodic_window(cv, t, len as int, k as int),
        decreases g.len() - i,
    {
        if check_periodic(g, i, len, k) {
            assert(periodic_window(cv, i as int, (k as int) * (reps as int), k as int));
            assert(0 <= i && i + (k as int) * (reps as int) <= cv.len());
            return true;
        }
        i += 1;
    }
    assert(!has_repeated_block(cv, k as int, reps as int)) by {
        if has_repeated_block(cv, k as int, reps as int) {
            let t = choose|t: int| 0 <= t && t + k * reps <= cv.len()
                && #[trigger] periodic_window(cv, t, k * reps, k as int);
            assert(t < i);
        }
    }
    false
}

fn check_window_all(g: &Vec<Vec<char>>, i: usize, m: usize, t: &Vec<char>) -> (r: bool)
    requires
        i + m <= g.len(),
    ensures
        r == window_all(clusters_view(g@), i as int, m as int, t@),
{
    let ghost cv = clusters_view(g@);
    let mut j: usize = i;
    while j < i + m
        invariant
            i <= j <= i + m,
            i + m <= g.len(),
            cv == clusters_view(g@),
            forall|u: int| i <= u < j ==> #[trigger] cv[u] == t@,
        decreases i + m - j,
    {
        if !chars_equal(&g[j], t) {
            assert(!window_all(cv, i as int, m as int, t@)) by {
                assert(cv[j as int] != t@);
            }
            return false;
        }
        j += 1;
    }
    true
}

fn run_of_cluster(g: &Vec<Vec<char>>, t: &Vec<char>, m: usize) -> (r: bool)
    ensures
        r == has_run_of(clusters_view(g@), t@, m as int),
{
    let ghost cv = clusters_view(g@);
    if m > g.len() {
        return false;
    }
    let mut i: usize = 0;
    while i <= g.len() - m
        invariant
            m <= g.len(),
            cv == clusters_view(g@),
            forall|u: int| 0 <= u < i ==> !#[trigger] window_all(cv, u, m as int, t@),
        decreases g.len() - i,
    {
        if check_window_all(g, i, m, t) {
            return true;
        }
        i += 1;
    }
    assert(!has_run_of(cv, t@, m as int)) by {
        if has_run_of(cv, t@, m as int) {
            let u = choose|u: int| 0 <= u && u + m <= cv.len() && #[trigger] window_all(cv, u, m as int, t@);
            assert(u < i);
        }
    }
    false
}

fn lead_pair(a: &Vec<char>, b: &Vec<char>) -> (r: bool)
    ensures
        r == is_lead_pair(a@, b@),
{
    if a.len() != 1 || b.len() != 1 {
        return false;
    }
    let x = a[0];
    let y = b[0];
    (x == 'c' && (y == 'h' || y == 'o')) || (x == 'o' && y == 'h') || (x == 'n' && y == 'h')
        || (x == 'h' && y == 'o')
}

fn opening_pairs(g: &Vec<Vec<char>>, m: usize) -> (r: bool)
    requires
        m <= 3,
    ensures
        r == opens_with_pairs(clusters_view(g@), m as int),
{
    let ghost cv = clusters_view(g@);
    if 2 * m > g.len() {
        return false;
    }
    let mut r: usize = 0;
    while r < m
        invariant
            r <= m <= 3,
            2 * m <= g.len(),
            cv == clusters_view(g@),
            forall|u: int| 0 <= u < r ==> #[trigger] lead_pair_at(cv, u),
        decreases m - r,
    {
        if !lead_pair(&g[2 * r], &g[2 * r + 1]) {
            assert(!opens_with_pairs(cv, m as int)) by {
                assert(!lead_pair_at(cv, r as int));
            }
            return false;
        }
        r += 1;
    }
    true
}

fn check_periodic_all(g: &Vec<Vec<char>>, p: usize) -> (r: bool)
    requires
        p <= g.len(),
    ensures
        r == periodic_all(clusters_view(g@), p as int),
{
    let ghost cv = clusters_view(g@);
    let b = check_periodic(g, 0, g.len(), p);
    assert(periodic_window(cv, 0, g.len() as int, p as int) == periodic_all(cv, p as int));
    b
}

fn chunk_tripled_exec(g: &Vec<Vec<char>>) -> (r: bool)
    ensures
        r == chunk_tripled(clusters_view(g@)),
{
    let ghost cv = clusters_view(g@);
    let n = g.len();
    let mut p: usize = 2;
    while p <= n / 3
        invariant
            2 <= p,
            n == g.len(),
            cv == clusters_view(g@),
            forall|q: int| 2 <= q < p && 3 * q <= n && (n as int) % q == 0 ==> !#[trigger] periodic_all(cv, q),
        decreases n - p,
    {
        if n % p == 0 && check_periodic_all(g, p) {
            return true;
        }
        p += 1;
    }
    assert(!chunk_tripled(cv)) by {
        if chunk_tripled(cv) {
            let q = choose|q: int| 2 <= q && 3 * q <= cv.len() && (cv.len() as int) % q == 0
                && #[trigger] periodic_all(cv, q);
            assert(q < p);
        }
    }
    false
}

fn vowel(c: char) -> (r: bool)
    ensures
        r == is_vowel(c),
{
    c == 'a' || c == 'e' || c == 'i' || c == 'o' || c == 'u' || c == 'y'
    || c == 'A' || c == 'E' || c == 'I' || c == 'O' || c == 'U' || c == 'Y'
    || c == 'а' || c == 'е' || c == 'ё' || c == 'и' || c == 'о' || c == 'у' || c == 'ы'
    || c == 'э' || c == 'ю' || c == 'я'
    || c == 'А' || c == 'Е' || c == 'Ё' || c == 'И' || c == 'О' || c == 'У' || c == 'Ы'
    || c == 'Э' || c == 'Ю' || c == 'Я'
    || c == 'α' || c == 'ε' || c == 'η' || c == 'ι' || c == 'ο' || c == 'υ' || c == 'ω'
    || c == 'Α' || c == 'Ε' || c == 'Η' || c == 'Ι' || c == 'Ο' || c == 'Υ' || c == 'Ω'
}

fn vowel_run(w: &Vec<char>, m: usize) -> (r: bool)
    requires
        m >= 1,
    ensures
        r == has_vowel_run(w@, m as int),
{
    // `run` counts the vowels that end just before position `i`.
    let mut run: usize = 0;
    let mut i: usize = 0;
    while i < w.len()
        invariant
            i <= w.len(),
            m >= 1,
            run <= i,
            run < m,
            vowel_window(w@, i - run, run as int),
            i > run ==> !is_vowel(w@[i - run - 1]),
            forall|t: int| 0 <= t && t + m <= i ==> !#[trigger] vowel_window(w@, t, m as int),
        decreases w.len() - i,
    {
        if vowel(w[i]) {
            run += 1;
            if run >= m {
                assert(vowel_window(w@, i + 1 - m, m as int));
                return true;
            }
        } else {
            run = 0;
        }
        i += 1;
        assert forall|t: int| 0 <= t && t + m <= i implies !#[trigger] vowel_window(w@, t, m as int) by {
            if t + m == i && vowel_window(w@, t, m as int) {
                if run == 0 {
                    assert(is_vowel(w@[i - 1]));
                } else {
                    assert(t < i - run);
                    assert(is_vowel(w@[i - run - 1]));
                }
            }
        }
    }
    assert(!has_vowel_run(w@, m as int)) by {
        if has_vowel_run(w@, m as int) {
            let t = choose|t: int| 0 <= t && t + m <= w@.len() && #[trigger] vowel_window(w@, t, m as int);
        }
    }
    false
}

/// The noise tests on a word, given the word's grapheme clusters.
pub fn noisy_with_clusters(w: &str, g: &Vec<Vec<char>>) -> (r: bool)
    ensures
        r == (w@.len() > 0 && noisy_parts(clusters_view(g@), w@)),
{
    let cs = chars_of(w);
    if cs.len() == 0 {
        return false;
    }
    let x: Vec<char> = vec!['x'];
    assert(x@ =~= seq!['x']);
    cluster_run(g, 5) || repeated_block(g, 2, 4) || repeated_block(g, 3, 3)
        || run_of_cluster(g, &x, 3) || opening_pairs(g, 3) || vowel_run(&cs, 5)
        || chunk_tripled_exec(g)
}

/// Heuristic noise detector, on grapheme clusters where it matters.
pub fn looks_noisy(w: &str) -> (r: bool)
    ensures
        r == noisy_word(w@),
{
    let g = graphemes_of(w);
    noisy_with_clusters(w, &g)
}

/// The scalars of each string.
pub open spec fn string_views(v: Seq<String>) -> Seq<Seq<char>> {
    v.map_values(|s: String| s@)
}

/// One of the first `upto` words spells `s` and is noisy.
pub open spec fn noisy_among(words: Seq<String>, upto: int, s: Seq<char>) -> bool {
    exists|t: int| 0 <= t < upto && #[trigger] words[t]@ == s && noisy_word(s)
}

/// Some string of `v` spells `s`.
pub open spec fn spelled_in(v: Seq<String>, s: Seq<char>) -> bool {
    exists|j: int| 0 <= j < v.len() && #[trigger] v[j]@ == s
}

/// The noisy words of a list, sorted in `String` order without repeats.
pub fn find_noisy_words(words: &[String]) -> (r: Vec<String>)
    ensures
        strictly_sorted(string_views(r@)),
        forall|j: int| 0 <= j < r.len() ==> noisy_among(words@, words.len() as int, #[trigger] r@[j]@),
        forall|i: int| 0 <= i < words.len() && noisy_word(#[trigger] words@[i]@) ==> spelled_in(r@, words@[i]@),
{
    let mut out: Vec<String> = Vec::new();
    let mut keys: Vec<Vec<char>> = Vec::new();
    let mut i: usize = 0;
    while i < words.len()
        invariant
            i <= words.len(),
            out.len() == keys.len(),
            forall|j: int| 0 <= j < keys.len() ==> #[trigger] keys@[j]@ == out@[j]@,
            forall|a: int, b: int| 0 <= a < b < keys.len() ==> char_seq_lt(#[trigger] keys@[a]@, #[trigger] keys@[b]@),
            forall|j: int| 0 <= j < out.len() ==> noisy_among(words@, i as int, #[trigger] out@[j]@),
            forall|t: int| 0 <= t < i && noisy_word(#[trigger] words@[t]@) ==> spelled_in(out@, words@[t]@),
        decreases words.len() - i,
    {
        let w = &words[i];
        if looks_noisy(w.as_str()) {
            let k = chars_of(w.as_str());
            let mut p: usize = 0;
            while p < keys.len() && chars_lt(&keys[p], &k)
                invariant
                    p <= keys.len(),
                    forall|a: int| 0 <= a < p ==> char_seq_lt(#[trigger] keys@[a]@, k@),
                decreases keys.len() - p,
            {
                p += 1;
            }
            let dup = p < keys.len() && chars_equal(&keys[p], &k);
            if !dup {
                let ghost old_keys = keys@;
                let ghost old_out = out@;
                proof {
                    if p < keys.len() {
                        lemma_lt_total(keys@[p as int]@, k@);
                    }
                    assert forall|b: int| p <= b < old_keys.len() implies char_seq_lt(k@, #[trigger] old_keys[b]@) by {
                        if b > p {
                            lemma_lt_transitive(k@, old_keys[p as int]@, old_keys[b]@);
                        }
                    }
                }
                keys.insert(p, k);
                out.insert(p, w.clone());
                assert(out@[p as int]@ == w@);
                assert forall|a: int, b: int| 0 <= a < b < keys.len() implies char_seq_lt(#[trigger] keys@[a]@, #[trigger] keys@[b]@) by {
                    if b < p {
                    } else if b == p {
                    } else if a < p {
                        assert(keys@[b] == old_keys[b - 1]);
                        lemma_lt_transitive(keys@[a]@, k@, keys@[b]@);
                    } else if a == p {
                        assert(keys@[b] == old_keys[b - 1]);
                    } else {
                        assert(keys@[a] == old_keys[a - 1]);
                        assert(keys@[b] == old_keys[b - 1]);
                    }
                }
                assert forall|j: int| 0 <= j < keys.len() implies #[trigger] keys@[j]@ == out@[j]@ by {
                    if j < p {
                    } else if j > p {
                        assert(keys@[j] == old_keys[j - 1]);
                        assert(out@[j] == old_out[j - 1]);
                    }
                }
                assert forall|j: int| 0 <= j < out.len() implies noisy_among(words@, i + 1, #[trigger] out@[j]@) by {
                    if j < p {
                        assert(out@[j] == old_out[j]);
                        assert(noisy_among(words@, i as int, old_out[j]@));
                    } else if j == p {
                        assert(words@[i as int]@ == out@[j]@);
                    } else {
                        assert(out@[j] == old_out[j - 1]);
                        assert(noisy_among(words@, i as int, old_out[j - 1]@));
                    }
                }
                assert forall|t: int| 0 <= t < i + 1 && noisy_word(#[trigger] words@[t]@) implies spelled_in(out@, words@[t]@) by {
                    if t == i {
                        assert(out@[p as int]@ == words@[t]@);
                    } else {
                        assert(spelled_in(old_out, words@[t]@));
                        let j0 = choose|j0: int| 0 <= j0 < old_out.len() && #[trigger] old_out[j0]@ == words@[t]@;
                        if j0 < p {
                            assert(out@[j0] == old_out[j0]);
                        } else {
                            assert(out@[j0 + 1] == old_out[j0]);
                        }
                    }
                }
            } else {
                assert(out@[p as int]@ == words@[i as int]@);
                assert forall|j: int| 0 <= j < out.len() implies noisy_among(words@, i + 1, #[trigger] out@[j]@) by {
                    assert(noisy_among(words@, i as int, out@[j]@));
                }
            }
        } else {
            assert forall|j: int| 0 <= j < out.len() implies noisy_among(words@, i + 1, #[trigger] out@[j]@) by {
                assert(noisy_among(words@, i as int, out@[j]@));
            }
        }
        i += 1;
    }
    proof {
        assert forall|a: int, b: int| 0 <= a < b < out.len() implies char_seq_lt(
            #[trigger] string_views(out@)[a], #[trigger] string_views(out@)[b]) by {
            assert(keys@[a]@ == out@[a]@);
            assert(keys@[b]@ == out@[b]@);
        }
    }
    out
}

} // verus!
