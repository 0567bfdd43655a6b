//! Decisions of the interactive session: reading index selections such as
//! `1 3-7, 12`, and the repair commands typed at the prompt.

use vstd::prelude::*;
use crate::text::{chars_of, string_from_chars, chars_equal};
use crate::conf::{is_space, trimmed, ascii_lower, find_char, slice_of, trim_chars, ascii_lower_exec};
use crate::types::{RepairMode, mode_from_lower, str_lowercase, lowercase};

verus! {

broadcast use vstd::string::group_string_axioms;

/// The program's command-line settings: a verifier configuration to run, or
/// the seed, sweep count and largest subset size of the interactive design.
pub struct Args {
    pub verify: Option<String>,
    pub seed: i64,
    pub sweeps: usize,
    pub max_k: usize,
}

/* ------------------------------- numbers ------------------------------- */

/// An ASCII decimal digit.
pub open spec fn is_digit(c: char) -> bool {
    '0' <= c <= '9'
}

/// The value of a string of decimal digits.
pub open spec fn digits_value(d: Seq<char>) -> nat
    decreases d.len(),
{
    if d.len() == 0 {
        0
    } else {
        digits_value(d.drop_last()) * 10 + ((d.last() as int) - ('0' as int)) as nat
    }
}

/// All scalars are digits, and there is at least one.
pub open spec fn all_digits(d: Seq<char>) -> bool {
    d.len() > 0 && forall|i: int| 0 <= i < d.len() ==> is_digit(#[trigger] d[i])
}

/// `usize::from_str`: an optional `+`, then decimal digits, within range.
pub open spec fn parse_usize_spec(s: Seq<char>) -> Option<nat> {
    let d = if s.len() > 0 && s[0] == '+' { s.drop_first() } else { s };
    if all_digits(d) && digits_value(d) <= usize::MAX {
        Some(digits_value(d))
    } else {
        None
    }
}

proof fn lemma_digits_value_mono(d: Seq<char>, i: int)
    requires
        0 <= i <= d.len(),
        forall|j: int| 0 <= j < d.len() ==> is_digit(#[trigger] d[j]),
    ensures
        digits_value(d.take(i)) <= digits_value(d),
    decreases d.len() - i,
{
    if i < d.len() {
        lemma_digits_value_mono(d, i + 1);
        assert(d.take(i + 1).drop_last() =~= d.take(i));
    } else {
        assert(d.take(i) =~= d);
    }
}

/// Parses `s` as `usize::from_str` does.
pub fn parse_usize(s: &Vec<char>) -> (r: Option<usize>)
    ensures
        r == (match parse_usize_spec(s@) {
            Some(v) => Some(v as usize),
            None => None::<usize>,
        }),
        r matches Some(v) ==> parse_usize_spec(s@) == Some(v as nat),
{
    let ghost d = if s@.len() > 0 && s@[0] == '+' { s@.drop_first() } else { s@ };
    let start: usize = if s.len() > 0 && s[0] == '+' { 1 } else { 0 };
    assert(d =~= s@.skip(start as int));
    if start >= s.len() {
        return None;
    }
    if !all_digits_from(s, start) {
        proof {
            let j = choose|j: int| start <= j < s@.len() && !is_digit(#[trigger] s@[j]);
            assert(!is_digit(d[j - start]));
        }
        return None;
    }
    assert(forall|j: int| 0 <= j < d.len() ==> is_digit(#[trigger] d[j])) by {
        assert forall|j: int| 0 <= j < d.len() implies is_digit(#[trigger] d[j]) by {
            assert(d[j] == s@[j + start]);
        }
    }
    let mut v: usize = 0;
    let mut i: usize = start;
    assert(d.take(0) =~= Seq::<char>::empty());
    while i < s.len()
        invariant
            start <= i <= s.len(),
            start < s.len(),
            d == s@.skip(start as int),
            d == (if s@.len() > 0 && s@[0] == '+' { s@.drop_first() } else { s@ }),
            forall|j: int| 0 <= j < d.len() ==> is_digit(#[trigger] d[j]),
            v as nat == digits_value(d.take(i - start)),
        decreases s.len() - i,
    {
        let c = s[i];
        assert(d[i - start] == c);
        assert(is_digit(d[i - start]));
        let dv: usize = (crate::lexorder::scalar_value(c) - 48) as usize;
        assert(d.take(i + 1 - start).drop_last() =~= d.take(i - start));
        assert(d.take(i + 1 - start).last() == c);
        let next = match v.checked_mul(10) {
            None => None,
            Some(m) => m.checked_add(dv),
        };
        match next {
            None => {
                proof {
                    assert(digits_value(d.take(i + 1 - start)) > usize::MAX);
                    lemma_digits_value_mono(d, i + 1 - start);
                    assert(digits_value(d) > usize::MAX);
                    assert(d == (if s@.len() > 0 && s@[0] == '+' { s@.drop_first() } else { s@ }));
                    assert(parse_usize_spec(s@) is None);
                }
                return None;
            },
            Some(nv) => {
                v = nv;
            },
        }
        i += 1;
    }
    assert(d.take(s.len() - start) =~= d);
    Some(v)
}

/// Whether every scalar of `s` from position `i` on is a digit.
fn all_digits_from(s: &Vec<char>, i: usize) -> (r: bool)
    requires
        i <= s.len(),
    ensures
        r == forall|j: int| i <= j < s.len() ==> is_digit(#[trigger] s@[j]),
{
    let mut k: usize = i;
    while k < s.len()
        invariant
            i <= k <= s.len(),
            forall|j: int| i <= j < k ==> is_digit(#[trigger] s@[j]),
        decreases s.len() - k,
    {
        if !('0' <= s[k] && s[k] <= '9') {
            assert(!is_digit(s@[k as int]));
            return false;
        }
        k += 1;
    }
    true
}

/* ---------------------------- index selections ---------------------------- */

/// Separators of an index selection: commas and whitespace.
pub open spec fn is_sep(c: char) -> bool {
    c == ',' || is_space(c)
}

/// Tokens finished so far and the token being read.
pub struct TokScan {
    pub done: Seq<Seq<char>>,
    pub cur: Seq<char>,
}

pub open spec fn tok_run(s: Seq<char>) -> TokScan
    decreases s.len(),
{
    if s.len() == 0 {
        TokScan { done: Seq::empty(), cur: Seq::empty() }
    } else {
        let st = tok_run(s.drop_last());
        if is_sep(s.last()) {
            TokScan { done: if st.cur.len() > 0 { st.done.push(st.cur) } else { st.done }, cur: Seq::empty() }
        } else {
            TokScan { done: st.done, cur: st.cur.push(s.last()) }
        }
    }
}

/// The non-empty runs of non-separators, in order.
pub open spec fn index_tokens(s: Seq<char>) -> Seq<Seq<char>> {
    let st = tok_run(s);
    if st.cur.len() > 0 {
        st.done.push(st.cur)
    } else {
        st.done
    }
}

/// The range a token names: `a-b` (either order) or a single number.
pub open spec fn token_range(t: Seq<char>) -> Option<(nat, nat)> {
    match find_char(t, '-') {
        Some(h) => match (parse_usize_spec(t.take(h)), parse_usize_spec(t.skip(h + 1))) {
            (Some(a), Some(b)) => Some(if a <= b { (a, b) } else { (b, a) }),
            _ => None,
        },
        None => match parse_usize_spec(t) {
            Some(k) => Some((k, k)),
            None => None,
        },
    }
}

/// Token `t` names `k`.
pub open spec fn token_covers(t: Seq<char>, k: int) -> bool {
    token_range(t) matches Some((a, b)) && a <= k <= b
}

/// Some token names `k`.
pub open spec fn covers(toks: Seq<Seq<char>>, k: int) -> bool {
    exists|i: int| 0 <= i < toks.len() && #[trigger] token_covers(toks[i], k)
}

proof fn lemma_covers_push(done: Seq<Seq<char>>, cur: Seq<char>, k: int)
    ensures
        covers(done.push(cur), k) == (covers(done, k) || token_covers(cur, k)),
{
    let nd = done.push(cur);
    if covers(nd, k) {
        let q = choose|q: int| 0 <= q < nd.len() && #[trigger] token_covers(nd[q], k);
        if q < done.len() {
            assert(token_covers(done[q], k));
        }
    }
    if covers(done, k) {
        let q = choose|q: int| 0 <= q < done.len() && #[trigger] token_covers(done[q], k);
        assert(token_covers(nd[q], k));
    }
    if token_covers(cur, k) {
        assert(token_covers(nd[done.len() as int], k));
    }
}

fn token_range_exec(t: &Vec<char>) -> (r: Option<(usize, usize)>)
    ensures
        r == (match token_range(t@) {
            Some((a, b)) => Some((a as usize, b as usize)),
            None => None::<(usize, usize)>,
        }),
        r matches Some((a, b)) ==> token_range(t@) == Some((a as nat, b as nat)),
{
    let mut h: usize = 0;
    while h < t.len() && t[h] != '-'
        invariant
            h <= t.len(),
            forall|j: int| 0 <= j < h ==> t@[j] != '-',
        decreases t.len() - h,
    {
        h += 1;
    }
    if h < t.len() {
        proof {
            assert(t@.contains('-'));
            let k = choose|k: int| 0 <= k < t@.len() && t@[k] == '-' && forall|j: int| 0 <= j < k ==> t@[j] != '-';
            assert(k == h) by {
                if k > h {
                    assert(t@[h as int] == '-');
                }
            }
        }
        let mut left: Vec<char> = Vec::new();
        let mut j: usize = 0;
        while j < h
            invariant
                j <= h < t.len(),
                left@ == t@.take(j as int),
            decreases h - j,
        {
            left.push(t[j]);
            j += 1;
            assert(left@ =~= t@.take(j as int));
        }
        let mut right: Vec<char> = Vec::new();
        let mut q: usize = h + 1;
        while q < t.len()
            invariant
                h < q <= t.len(),
                right@ == t@.subrange(h + 1, q as int),
            decreases t.len() - q,
        {
            right.push(t[q]);
            q += 1;
            assert(right@ =~= t@.subrange(h + 1, q as int));
        }
        assert(right@ =~= t@.skip(h + 1));
        match (parse_usize(&left), parse_usize(&right)) {
            (Some(a), Some(b)) => {
                if a <= b {
                    Some((a, b))
                } else {
                    Some((b, a))
                }
            },
            _ => None,
        }
    } else {
        match parse_usize(t) {
            Some(k) => Some((k, k)),
            None => None,
        }
    }
}

fn mark_token(t: &Vec<char>, marks: &mut Vec<bool>)
    requires
        old(marks).len() > 0,
    ensures
        final(marks).len() == old(marks).len(),
        !final(marks)@[0] == !old(marks)@[0],
        forall|k: int| 1 <= k < final(marks).len() ==> #[trigger] final(marks)@[k] == (old(marks)@[k] || token_covers(t@, k)),
{
    let max = marks.len() - 1;
    match token_range_exec(t) {
        None => {},
        Some((a, b)) => {
            let lo: usize = if a < 1 { 1 } else { a };
            let hi: usize = if b < max { b } else { max };
            if lo <= hi {
                let ghost m0 = marks@;
                let mut k: usize = lo;
                while k <= hi
                    invariant
                        1 <= lo <= k,
                        hi <= max,
                        k <= hi + 1,
                        marks.len() == max + 1,
                        m0.len() == max + 1,
                        m0[0] == marks@[0],
                        forall|x: int| 0 <= x < marks.len() ==> #[trigger] marks@[x] == (m0[x] || (lo <= x < k)),
                    decreases hi + 1 - k,
                {
                    marks.set(k, true);
                    k += 1;
                }
            }
        },
    }
}

/// The indices, from one to `max_index`, that a selection such as
/// `1 3-7, 12` names, in increasing order without repeats.  Tokens that are
/// not a number or a range of two numbers are ignored.
pub fn parse_indices(input: &str, max_index: usize) -> (r: Vec<usize>)
    requires
        max_index < usize::MAX,
    ensures
        forall|i: int, j: int| 0 <= i < j < r.len() ==> r@[i] < r@[j],
        forall|k: usize| r@.contains(k) <==> (1 <= k <= max_index && covers(index_tokens(input@), k as int)),
{
    let cs = chars_of(input);
    let mut marks: Vec<bool> = Vec::new();
    while marks.len() <= max_index
        invariant
            marks.len() <= max_index + 1,
            forall|x: int| 0 <= x < marks.len() ==> !#[trigger] marks@[x],
        decreases max_index + 1 - marks.len(),
    {
        marks.push(false);
    }
    let mut cur: Vec<char> = Vec::new();
    let mut i: usize = 0;
    assert(cs@.take(0) =~= Seq::<char>::empty());
    while i < cs.len()
        invariant
            i <= cs.len(),
            cs@ == input@,
            marks.len() == max_index + 1,
            !marks@[0],
            cur@ == tok_run(cs@.take(i as int)).cur,
            forall|k: int| 1 <= k <= max_index ==> #[trigger] marks@[k] == covers(tok_run(cs@.take(i as int)).done, k),
        decreases cs.len() - i,
    {
        let c = cs[i];
        let ghost st = tok_run(cs@.take(i as int));
        assert(cs@.take(i + 1).drop_last() =~= cs@.take(i as int));
        assert(cs@.take(i + 1).last() == c);
        if c == ',' || crate::conf::space_pub(c) {
            if cur.len() > 0 {
                let ghost m0 = marks@;
                mark_token(&cur, &mut marks);
                proof {
                    let nd = st.done.push(st.cur);
                    assert forall|k: int| 1 <= k <= max_index implies #[trigger] marks@[k] == covers(nd, k) by {
                        lemma_covers_push(st.done, st.cur, k);
                    }
                }
            }
            cur = Vec::new();
        } else {
            cur.push(c);
        }
        i += 1;
    }
    assert(cs@.take(cs.len() as int) =~= cs@);
    let ghost st = tok_run(cs@);
    if cur.len() > 0 {
        mark_token(&cur, &mut marks);
        proof {
            let nd = st.done.push(st.cur);
            assert forall|k: int| 1 <= k <= max_index implies #[trigger] marks@[k] == covers(nd, k) by {
                lemma_covers_push(st.done, st.cur, k);
            }
        }
    }
    let ghost toks = index_tokens(input@);
    assert(forall|k: int| 1 <= k <= max_index ==> #[trigger] marks@[k] == covers(toks, k));
    let mut out: Vec<usize> = Vec::new();
    let mut k: usize = 1;
    while k <= max_index
        invariant
            1 <= k <= max_index + 1,
            max_index < usize::MAX,
            marks.len() == max_index + 1,
            forall|x: int| 1 <= x <= max_index ==> #[trigger] marks@[x] == covers(toks, x),
            forall|a: int, b: int| 0 <= a < b < out.len() ==> out@[a] < out@[b],
            forall|a: int| 0 <= a < out.len() ==> 1 <= #[trigger] out@[a] < k,
            forall|x: int| 1 <= x < k ==> (out@.contains(x as usize) <==> covers(toks, x)),
        decreases max_index + 1 - k,
    {
        let ghost o0 = out@;
        if marks[k] {
            out.push(k);
        }
        proof {
            assert forall|x: int| 1 <= x < k + 1 implies (out@.contains(x as usize) <==> covers(toks, x)) by {
                if x < k {
                    if out@.contains(x as usize) {
                        let q = choose|q: int| 0 <= q < out@.len() && out@[q] == x as usize;
                        if q < o0.len() {
                            assert(o0[q] == x as usize);
                        }
                    }
                    if o0.contains(x as usize) {
                        let q = choose|q: int| 0 <= q < o0.len() && o0[q] == x as usize;
                        assert(out@[q] == x as usize);
                    }
                } else {
                    if marks@[k as int] {
                        assert(out@[o0.len() as int] == k);
                    } else {
                        if out@.contains(x as usize) {
                            let q = choose|q: int| 0 <= q < out@.len() && out@[q] == x as usize;
                            assert(o0[q] < k);
                        }
                    }
                }
            }
        }
        k += 1;
    }
    assert forall|x: usize| out@.contains(x) <==> (1 <= x <= max_index && covers(toks, x as int)) by {
        if out@.contains(x) {
            let q = choose|q: int| 0 <= q < out@.len() && out@[q] == x;
            assert(1 <= out@[q] < k);
        }
        if 1 <= x <= max_index {
            assert(out@.contains(x as int as usize) <==> covers(toks, x as int));
        }
    }
    out
}

/* ---------------------------- repair commands ---------------------------- */

/// `i64::from_str`: an optional sign, then decimal digits, within range.
pub open spec fn parse_i64_spec(s: Seq<char>) -> Option<int> {
    let neg = s.len() > 0 && s[0] == '-';
    let d = if s.len() > 0 && (s[0] == '+' || s[0] == '-') { s.drop_first() } else { s };
    if !all_digits(d) {
        None
    } else {
        let v: int = if neg { -(digits_value(d) as int) } else { digits_value(d) as int };
        if i64::MIN <= v <= i64::MAX {
            Some(v)
        } else {
            None
        }
    }
}

/// Parses `s` as `i64::from_str` does.
pub fn parse_i64(s: &Vec<char>) -> (r: Option<i64>)
    ensures
        r == (match parse_i64_spec(s@) {
            Some(v) => Some(v as i64),
            None => None::<i64>,
        }),
{
    let neg = s.len() > 0 && s[0] == '-';
    let signed = s.len() > 0 && (s[0] == '+' || s[0] == '-');
    let ghost d = if s@.len() > 0 && (s@[0] == '+' || s@[0] == '-') { s@.drop_first() } else { s@ };
    let start: usize = if signed { 1 } else { 0 };
    assert(d =~= s@.skip(start as int));
    let digits = slice_of(s, start, s.len());
    assert(digits@ =~= d);
    if digits.len() == 0 || !all_digits_vec(&digits) {
        return None;
    }
    // The magnitude of the most negative value, 2^63, is one more than i64::MAX.
    match digits_u64(&digits) {
        None => None,
        Some(m) => {
            if neg {
                if m <= 9223372036854775807u64 {
                    Some(-(m as i64))
                } else if m == 9223372036854775808u64 {
                    Some(i64::MIN)
                } else {
                    None
                }
            } else {
                if m <= 9223372036854775807u64 {
                    Some(m as i64)
                } else {
                    None
                }
            }
        },
    }
}

/// The value of a string of digits, when it fits in a `u64`.
fn digits_u64(d: &Vec<char>) -> (r: Option<u64>)
    requires
        forall|j: int| 0 <= j < d@.len() ==> is_digit(#[trigger] d@[j]),
    ensures
        r matches Some(v) ==> v as nat == digits_value(d@),
        r is None ==> digits_value(d@) > u64::MAX,
{
    let mut v: u64 = 0;
    let mut i: usize = 0;
    assert(d@.take(0) =~= Seq::<char>::empty());
    while i < d.len()
        invariant
            i <= d.len(),
            forall|j: int| 0 <= j < d@.len() ==> is_digit(#[trigger] d@[j]),
            v as nat == digits_value(d@.take(i as int)),
        decreases d.len() - i,
    {
        let c = d[i];
        assert(is_digit(d@[i as int]));
        let dv: u64 = (crate::lexorder::scalar_value(c) - 48) as u64;
        assert(d@.take(i + 1).drop_last() =~= d@.take(i as int));
        assert(d@.take(i + 1).last() == c);
        let next = match v.checked_mul(10) {
            None => None,
            Some(m) => m.checked_add(dv),
        };
        match next {
            None => {
                proof {
                    assert(digits_value(d@.take(i + 1)) > u64::MAX);
                    lemma_digits_value_mono(d@, i + 1);
                }
                return None;
            },
            Some(nv) => {
                v = nv;
            },
        }
        i += 1;
    }
    assert(d@.take(d.len() as int) =~= d@);
    Some(v)
}

fn all_digits_vec(s: &Vec<char>) -> (r: bool)
    ensures
        r == (forall|j: int| 0 <= j < s@.len() ==> is_digit(#[trigger] s@[j])),
{
    let mut k: usize = 0;
    while k < s.len()
        invariant
            k <= s.len(),
            forall|j: int| 0 <= j < k ==> is_digit(#[trigger] s@[j]),
        decreases s.len() - k,
    {
        if !('0' <= s[k] && s[k] <= '9') {
            assert(!is_digit(s@[k as int]));
            return false;
        }
        k += 1;
    }
    true
}

/// What a line typed at the repair prompt asks for.
pub enum RepairCommand {
    /// Nothing typed: confirm keeping every word.
    Confirm,
    /// Longer repairs, with this many sweeps.
    More(usize),
    /// Set the sweep count.
    SetSweeps(usize),
    /// `sweeps=` without a number.
    BadSweeps,
    /// Rebuild with the next seed.
    SeedBump,
    /// Rebuild with this seed.
    SetSeed(i64),
    /// `seed=` without a number.
    BadSeed,
    /// List the repair modes.
    ListModes,
    /// Switch repair mode.
    SetMode(RepairMode),
    /// Remove the listed words, by index from one (possibly none).
    Remove(Vec<usize>),
}

/// `s` starts with `p`.
pub open spec fn has_prefix(s: Seq<char>, p: Seq<char>) -> bool {
    p.len() <= s.len() && s.take(p.len() as int) == p
}

/// The text after a `+sweeps=` or `sweeps=` prefix.
pub open spec fn sweeps_arg(s: Seq<char>) -> Option<Seq<char>> {
    if has_prefix(s, "+sweeps="@) {
        Some(s.skip("+sweeps="@.len() as int))
    } else if has_prefix(s, "sweeps="@) {
        Some(s.skip("sweeps="@.len() as int))
    } else {
        None
    }
}

/// The text after a `seed=` or `+seed=` prefix.
pub open spec fn seed_arg(s: Seq<char>) -> Option<Seq<char>> {
    if has_prefix(s, "seed="@) {
        Some(s.skip("seed="@.len() as int))
    } else if has_prefix(s, "+seed="@) {
        Some(s.skip("+seed="@.len() as int))
    } else {
        None
    }
}

/// The text after a `mode=` or `+mode=` prefix.
pub open spec fn mode_arg(s: Seq<char>) -> Option<Seq<char>> {
    if has_prefix(s, "mode="@) {
        Some(s.skip("mode="@.len() as int))
    } else if has_prefix(s, "+mode="@) {
        Some(s.skip("+mode="@.len() as int))
    } else {
        None
    }
}

fn prefix_rest(s: &Vec<char>, p: &str) -> (r: Option<Vec<char>>)
    ensures
        match r {
            Some(rest) => has_prefix(s@, p@) && rest@ == s@.skip(p@.len() as int),
            None => !has_prefix(s@, p@),
        },
{
    let pc = chars_of(p);
    if pc.len() > s.len() {
        return None;
    }
    let head = slice_of(s, 0, pc.len());
    assert(head@ =~= s@.take(pc.len() as int));
    if !chars_equal(&head, &pc) {
        return None;
    }
    let rest = slice_of(s, pc.len(), s.len());
    assert(rest@ =~= s@.skip(pc.len() as int));
    Some(rest)
}

fn is_word(s: &Vec<char>, w: &str) -> (r: bool)
    ensures
        r == (s@ == w@),
{
    chars_equal(s, &chars_of(w))
}

/// Reads a line typed at the repair prompt, where `n_candidates` words are
/// listed and `sweeps` is the current sweep count.  Commands are read
/// without regard to ASCII case; anything else is an index selection.
pub fn parse_repair_command(raw: &str, sweeps: usize, n_candidates: usize) -> (r: RepairCommand)
    requires
        sweeps <= usize::MAX - 1000,
        n_candidates < usize::MAX,
    ensures
        ({
            let t = trimmed(raw@);
            let s = ascii_lower(t);
            match r {
                RepairCommand::Confirm => t.len() == 0,
                RepairCommand::More(v) => t.len() > 0 && s == "more"@ && v == sweeps + 1000,
                RepairCommand::SetSweeps(v) => t.len() > 0 && s != "more"@ && sweeps_arg(s) is Some
                    && parse_usize_spec(sweeps_arg(s)->Some_0) == Some(v as nat),
                RepairCommand::BadSweeps => t.len() > 0 && s != "more"@ && sweeps_arg(s) is Some
                    && parse_usize_spec(sweeps_arg(s)->Some_0) is None,
                RepairCommand::SeedBump => t.len() > 0 && s != "more"@ && sweeps_arg(s) is None && s == "retry"@,
                RepairCommand::SetSeed(v) => t.len() > 0 && s != "more"@ && sweeps_arg(s) is None
                    && s != "retry"@ && seed_arg(s) is Some && parse_i64_spec(seed_arg(s)->Some_0) == Some(v as int),
                RepairCommand::BadSeed => t.len() > 0 && s != "more"@ && sweeps_arg(s) is None
                    && s != "retry"@ && seed_arg(s) is Some && parse_i64_spec(seed_arg(s)->Some_0) is None,
                RepairCommand::ListModes => t.len() > 0 && s != "more"@ && sweeps_arg(s) is None
                    && s != "retry"@ && seed_arg(s) is None && (s == "modes"@ || s == "mode"@ || s == "mode?"@),
                RepairCommand::SetMode(m) => t.len() > 0 && s != "more"@ && sweeps_arg(s) is None
                    && s != "retry"@ && seed_arg(s) is None && !(s == "modes"@ || s == "mode"@ || s == "mode?"@)
                    && mode_arg(s) is Some && m == mode_from_lower(str_lowercase(mode_arg(s)->Some_0)),
                RepairCommand::Remove(ix) => t.len() > 0 && s != "more"@ && sweeps_arg(s) is None
                    && s != "retry"@ && seed_arg(s) is None && !(s == "modes"@ || s == "mode"@ || s == "mode?"@)
                    && mode_arg(s) is None
                    && (forall|i: int, j: int| 0 <= i < j < ix.len() ==> ix@[i] < ix@[j])
                    && (forall|k: usize| ix@.contains(k) <==> (1 <= k <= n_candidates && covers(index_tokens(t), k as int))),
            }
        }),
{
    let t = trim_chars(&chars_of(raw));
    if t.len() == 0 {
        return RepairCommand::Confirm;
    }
    let s = ascii_lower_exec(&t);
    if is_word(&s, "more") {
        return RepairCommand::More(sweeps + 1000);
    }
    let sw = match prefix_rest(&s, "+sweeps=") {
        Some(rest) => Some(rest),
        None => prefix_rest(&s, "sweeps="),
    };
    if let Some(rest) = sw {
        return match parse_usize(&rest) {
            Some(v) => RepairCommand::SetSweeps(v),
            None => RepairCommand::BadSweeps,
        };
    }
    if is_word(&s, "retry") {
        return RepairCommand::SeedBump;
    }
    let sd = match prefix_rest(&s, "seed=") {
        Some(rest) => Some(rest),
        None => prefix_rest(&s, "+seed="),
    };
    if let Some(rest) = sd {
        return match parse_i64(&rest) {
            Some(v) => RepairCommand::SetSeed(v),
            None => RepairCommand::BadSeed,
        };
    }
    if is_word(&s, "modes") || is_word(&s, "mode") || is_word(&s, "mode?") {
        return RepairCommand::ListModes;
    }
    let md = match prefix_rest(&s, "mode=") {
        Some(rest) => Some(rest),
        None => prefix_rest(&s, "+mode="),
    };
    if let Some(rest) = md {
        let name = string_from_chars(&rest);
        return RepairCommand::SetMode(RepairMode::normalize(name.as_str()));
    }
    let text = string_from_chars(&t);
    let ts = text.as_str();
    let ix = parse_indices(ts, n_candidates);
    assert(ts@ == text@);
    assert(sweeps_arg(s@) is None);
    assert(seed_arg(s@) is None);
    assert(mode_arg(s@) is None);
    assert(text@ == trimmed(raw@));
    RepairCommand::Remove(ix)
}

/// An answer that confirms: `y` or `yes` in any case.
pub open spec fn confirms(ans: Seq<char>) -> bool {
    str_lowercase(ans) == "y"@ || str_lowercase(ans) == "yes"@
}

/// Whether an answer to a yes/no question confirms.
pub fn is_yes(ans: &str) -> (r: bool)
    ensures
        r == confirms(ans@),
{
    let l = lowercase(ans);
    crate::text::str_equal(l.as_str(), "y") || crate::text::str_equal(l.as_str(), "yes")
}

/* ------------------------------ session rounds ------------------------------ */

/// What the user chose after a round that left constraints unsatisfied.
#[derive(Clone, Debug)]
pub enum RepairAction {
    Nothing,
    Remove(Vec<String>),
    Sweeps,
    SeedBump,
    SeedSet(i64),
    ModeSet,
}

/// The settings that carry over from one design round to the next.
#[derive(Clone, Copy, Debug)]
pub struct Round {
    pub sweeps: usize,
    pub seed: i64,
    pub mode: RepairMode,
    /// The corpus changed, so its statistics must be recomputed.
    pub stats_dirty: bool,
    /// The next build starts from the last cubes.
    pub warm_start: bool,
}

/// How a round ended.
#[derive(Clone, Debug)]
pub enum RoundEvent {
    /// Every word is spellable.
    Verified,
    /// The constraints were met but some words are not spellable.
    Misses,
    /// Forced constraints are active, so the round is repeated.
    ForcedActive,
    /// The user answered with an action, a sweep count and a repair mode.
    Answered(RepairAction, usize, RepairMode),
}

/// The seed after one more step, wrapping past the largest value.
pub open spec fn next_seed(seed: i64) -> i64 {
    if seed == i64::MAX { i64::MIN } else { (seed + 1) as i64 }
}

/// The settings of the next round and whether there is one.
pub open spec fn round_after(r: Round, e: RoundEvent) -> (Round, bool) {
    match e {
        RoundEvent::Verified => (r, false),
        RoundEvent::Misses => (Round { warm_start: true, ..r }, true),
        RoundEvent::ForcedActive => (Round { seed: next_seed(r.seed), ..r }, true),
        RoundEvent::Answered(a, sweeps, mode) => {
            let base = Round { sweeps: sweeps, mode: mode, ..r };
            match a {
                RepairAction::Nothing => (base, false),
                RepairAction::Remove(_) => (Round { stats_dirty: true, ..base }, true),
                RepairAction::Sweeps => (base, true),
                RepairAction::SeedBump => (Round { seed: (r.seed + 1) as i64, ..base }, true),
                RepairAction::SeedSet(v) => (Round { seed: v, ..base }, true),
                RepairAction::ModeSet => (base, true),
            }
        },
    }
}

/// What a finished design round amounts to, before the user is asked: with
/// no deficit left, whether every word was spelled (`all_spelled`, which is
/// only looked at then); otherwise whether forced constraints are active.
/// `None` when the user is to be asked.
pub open spec fn settled_event(deficit_total: int, all_spelled: bool, forced_active: bool) -> Option<RoundEvent> {
    if deficit_total == 0 {
        Some(if all_spelled { RoundEvent::Verified } else { RoundEvent::Misses })
    } else if forced_active {
        Some(RoundEvent::ForcedActive)
    } else {
        None
    }
}

/// The event of a finished round that needs no answer from the user, if any.
pub fn round_event(deficit_total: i64, all_spelled: bool, forced_active: bool) -> (r: Option<RoundEvent>)
    ensures
        r == settled_event(deficit_total as int, all_spelled, forced_active),
{
    if deficit_total == 0 {
        if all_spelled {
            Some(RoundEvent::Verified)
        } else {
            Some(RoundEvent::Misses)
        }
    } else if forced_active {
        Some(RoundEvent::ForcedActive)
    } else {
        None
    }
}

/// The settings of the next design round, and whether to run it.
pub fn next_round(r: Round, e: &RoundEvent) -> (out: (Round, bool))
    requires
        (e matches RoundEvent::Answered(RepairAction::SeedBump, _, _)) ==> r.seed < i64::MAX,
    ensures
        out == round_after(r, *e),
{
    match e {
        RoundEvent::Verified => (r, false),
        RoundEvent::Misses => (Round { warm_start: true, ..r }, true),
        RoundEvent::ForcedActive => {
            let seed = if r.seed == i64::MAX { i64::MIN } else { r.seed + 1 };
            (Round { seed, ..r }, true)
        },
        RoundEvent::Answered(a, sweeps, mode) => {
            let base = Round { sweeps: *sweeps, mode: *mode, ..r };
            match a {
                RepairAction::Nothing => (base, false),
                RepairAction::Remove(_) => (Round { stats_dirty: true, ..base }, true),
                RepairAction::Sweeps => (base, true),
                RepairAction::SeedBump => (Round { seed: r.seed + 1, ..base }, true),
                RepairAction::SeedSet(v) => (Round { seed: *v, ..base }, true),
                RepairAction::ModeSet => (base, true),
            }
        },
    }
}

} // verus!
