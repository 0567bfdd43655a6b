//! Text to compiled letters.  Each alphabet token (one or more scalars) is
//! compiled to one symbol: a one-scalar token to that scalar, the k-th
//! longer token to a private-use scalar of plane 15.  A text is normalized
//! (NFC), rewritten left to right by the first rule whose source starts at
//! the current position, and cut into tokens by maximal munch; scalars that
//! start no token are dropped.

use vstd::prelude::*;
use crate::alphabet::{char_index, letter_index, lemma_letter_index_props, Alphabet};
use crate::text::{chars_equal, chars_of, string_from_chars};
use crate::catalog::nfc_form;
use unicode_normalization::UnicodeNormalization;

verus! {

broadcast use vstd::string::group_string_axioms;

/// Tokens, their compiled symbols, and rewrite rules.
pub struct Lexicon {
    pub tokens: Vec<Vec<char>>,
    pub symbols: Vec<char>,
    pub rules: Vec<(Vec<char>, Vec<char>)>,
}

/// The scalars of each token.
pub open spec fn token_views(t: Seq<Vec<char>>) -> Seq<Seq<char>> {
    Seq::new(t.len(), |i: int| t[i]@)
}

/// The scalars of each rule.
pub open spec fn rule_views(r: Seq<(Vec<char>, Vec<char>)>) -> Seq<(Seq<char>, Seq<char>)> {
    Seq::new(r.len(), |i: int| (r[i].0@, r[i].1@))
}

impl Lexicon {
    /// One symbol per token.
    pub open spec fn wf(&self) -> bool {
        self.tokens.len() == self.symbols.len()
    }
}

/* ------------------------------- compiling ------------------------------- */

/// The number of tokens before position `k` that have more than one scalar.
pub open spec fn multi_before(toks: Seq<Seq<char>>, k: int) -> nat
    decreases k,
{
    if k <= 0 {
        0
    } else {
        multi_before(toks, k - 1) + if toks[k - 1].len() > 1 { 1nat } else { 0nat }
    }
}

/// First scalar of the private-use plane 15 block used for compiled tokens.
pub const COMPILED_BASE: u32 = 0xF0000;

/// The compiled symbol of token `k`: a one-scalar token compiles to that
/// scalar, a longer one to the plane-15 private-use scalar numbered by how
/// many longer tokens come before it.
pub open spec fn compiled_code(toks: Seq<Seq<char>>, k: int) -> int {
    if toks[k].len() == 1 {
        toks[k][0] as int
    } else {
        COMPILED_BASE + multi_before(toks, k)
    }
}

/// `char::from_u32`: the scalar with value `v`, when `v` is one.
#[verifier::external_body]
pub(crate) fn scalar_from(v: u32) -> (r: Option<char>)
    ensures
        (v <= 0x10FFFF && !(0xD800 <= v <= 0xDFFF)) ==> r is Some,
        r matches Some(c) ==> c as int == v,
{
    char::from_u32(v)
}

proof fn lemma_multi_before_bound(toks: Seq<Seq<char>>, k: int)
    requires
        0 <= k <= toks.len(),
    ensures
        multi_before(toks, k) <= k,
    decreases k,
{
    if k > 0 {
        lemma_multi_before_bound(toks, k - 1);
    }
}

proof fn lemma_multi_before_mono(toks: Seq<Seq<char>>, i: int, j: int)
    requires
        0 <= i <= j <= toks.len(),
    ensures
        multi_before(toks, i) <= multi_before(toks, j),
    decreases j - i,
{
    if i < j {
        lemma_multi_before_mono(toks, i, j - 1);
    }
}

/// Tokens whose compiled symbols are all different: no token is empty or
/// repeats, and no one-scalar token is itself one of the private-use
/// scalars that the longer tokens compile to.
pub open spec fn tokens_compile_apart(toks: Seq<Seq<char>>) -> bool {
    &&& toks.no_duplicates()
    &&& forall|k: int| 0 <= k < toks.len() ==> (#[trigger] toks[k]).len() > 0
    &&& forall|k: int| 0 <= k < toks.len() && #[trigger] toks[k].len() == 1 ==> !(COMPILED_BASE <= toks[k][0] as int
        && (toks[k][0] as int) < COMPILED_BASE + multi_before(toks, toks.len() as int))
}

/// Distinct tokens that compile apart get distinct symbols.
pub proof fn lemma_compiled_codes_distinct(toks: Seq<Seq<char>>, k1: int, k2: int)
    requires
        tokens_compile_apart(toks),
        0 <= k1 < k2 < toks.len(),
    ensures
        compiled_code(toks, k1) != compiled_code(toks, k2),
{
    let n = toks.len() as int;
    if toks[k1].len() == 1 && toks[k2].len() == 1 {
        if toks[k1][0] == toks[k2][0] {
            assert(toks[k1] =~= toks[k2]);
        }
    } else if toks[k1].len() != 1 && toks[k2].len() != 1 {
        lemma_multi_before_mono(toks, k1 + 1, k2);
    } else if toks[k1].len() == 1 {
        lemma_multi_before_mono(toks, k2 + 1, n);
    } else {
        lemma_multi_before_mono(toks, k1 + 1, n);
    }
}

/// Builds the lexicon of an alphabet: tokens with their compiled symbols,
/// and the rewrite rules in the order given.
pub fn build_lexicon(tokens: &Vec<String>, rewrites: &Vec<(String, String)>) -> (r: Lexicon)
    requires
        tokens.len() < 0xFFFE,
    ensures
        r.wf(),
        token_views(r.tokens@) == tokens@.map_values(|t: String| t@),
        forall|k: int| 0 <= k < r.symbols.len() ==> #[trigger] r.symbols@[k] as int == compiled_code(
            token_views(r.tokens@), k),
        rule_views(r.rules@) == rewrites@.map_values(|p: (String, String)| (p.0@, p.1@)),
        tokens_compile_apart(tokens@.map_values(|t: String| t@)) ==> r.symbols@.no_duplicates(),
{
    let mut toks: Vec<Vec<char>> = Vec::new();
    let mut syms: Vec<char> = Vec::new();
    let mut multi: u32 = 0;
    let mut i: usize = 0;
    while i < tokens.len()
        invariant
            i <= tokens.len() < 0xFFFE,
            toks.len() == i,
            syms.len() == i,
            token_views(toks@) == tokens@.take(i as int).map_values(|t: String| t@),
            multi as int == multi_before(token_views(toks@), i as int),
            multi <= i,
            forall|k: int| 0 <= k < i ==> #[trigger] syms@[k] as int == compiled_code(token_views(toks@), k),
        decreases tokens.len() - i,
    {
        let cs = chars_of(tokens[i].as_str());
        let ghost before = token_views(toks@);
        let c: char = if cs.len() == 1 {
            cs[0]
        } else {
            match scalar_from(COMPILED_BASE + multi) {
                Some(c) => c,
                None => {
                    proof {
                        assert(false);
                    }
                    ' '
                },
            }
        };
        let is_multi = cs.len() > 1;
        toks.push(cs);
        syms.push(c);
        let ghost after = token_views(toks@);
        proof {
            assert(after =~= before.push(tokens@[i as int]@));
            assert(tokens@.take(i + 1).map_values(|t: String| t@) =~= tokens@.take(i as int).map_values(
                |t: String| t@).push(tokens@[i as int]@));
            assert forall|k: int| 0 <= k <= i implies multi_before(after, k) == multi_before(before, k) by {
                lemma_multi_before_prefix(before, after, k);
            }
            assert forall|k: int| 0 <= k < i + 1 implies #[trigger] syms@[k] as int == compiled_code(after, k) by {
                if k < i {
                    assert(after[k] == before[k]);
                }
            }
        }
        if is_multi {
            multi = multi + 1;
        }
        i += 1;
    }
    let mut rules: Vec<(Vec<char>, Vec<char>)> = Vec::new();
    let mut j: usize = 0;
    while j < rewrites.len()
        invariant
            j <= rewrites.len(),
            rule_views(rules@) == rewrites@.take(j as int).map_values(|p: (String, String)| (p.0@, p.1@)),
        decreases rewrites.len() - j,
    {
        let a = chars_of(rewrites[j].0.as_str());
        let b = chars_of(rewrites[j].1.as_str());
        let ghost before = rule_views(rules@);
        rules.push((a, b));
        assert(rule_views(rules@) =~= before.push((rewrites@[j as int].0@, rewrites@[j as int].1@)));
        assert(rewrites@.take(j + 1).map_values(|p: (String, String)| (p.0@, p.1@)) =~= rewrites@.take(
            j as int).map_values(|p: (String, String)| (p.0@, p.1@)).push((rewrites@[j as int].0@, rewrites@[j as int].1@)));
        j += 1;
    }
    assert(tokens@.take(tokens.len() as int) =~= tokens@);
    assert(rewrites@.take(rewrites.len() as int) =~= rewrites@);
    proof {
        let tv = token_views(toks@);
        if tokens_compile_apart(tv) {
            assert forall|a: int, b: int| 0 <= a < syms@.len() && 0 <= b < syms@.len() && a != b implies syms@[a] != syms@[b] by {
                if a < b {
                    lemma_compiled_codes_distinct(tv, a, b);
                } else {
                    lemma_compiled_codes_distinct(tv, b, a);
                }
            }
        }
    }
    Lexicon { tokens: toks, symbols: syms, rules }
}

proof fn lemma_multi_before_prefix(a: Seq<Seq<char>>, b: Seq<Seq<char>>, k: int)
    requires
        0 <= k <= a.len() <= b.len(),
        forall|j: int| 0 <= j < a.len() ==> a[j] == b[j],
    ensures
        multi_before(b, k) == multi_before(a, k),
    decreases k,
{
    if k > 0 {
        lemma_multi_before_prefix(a, b, k - 1);
    }
}

/// The alphabet of a lexicon: its symbols, in token order; `None` when two
/// tokens compiled to the same symbol.
pub fn lexicon_alphabet(lex: &Lexicon) -> (r: Option<Alphabet>)
    ensures
        r is Some <==> lex.symbols@.no_duplicates(),
        r matches Some(a) ==> a@ == lex.symbols@,
{
    let mut symbols: Vec<char> = Vec::new();
    let mut i: usize = 0;
    while i < lex.symbols.len()
        invariant
            i <= lex.symbols.len(),
            symbols@ == lex.symbols@.take(i as int),
        decreases lex.symbols.len() - i,
    {
        symbols.push(lex.symbols[i]);
        i += 1;
        assert(symbols@ =~= lex.symbols@.take(i as int));
    }
    assert(lex.symbols@.take(lex.symbols.len() as int) =~= lex.symbols@);
    Alphabet::new(symbols)
}

/* ------------------------------- rewriting ------------------------------- */

/// `p` is a non-empty prefix of `s`.
pub open spec fn starts_with(s: Seq<char>, p: Seq<char>) -> bool {
    0 < p.len() <= s.len() && s.take(p.len() as int) == p
}

/// The first rule, from index `from` on, whose source starts `s`.
pub open spec fn first_rule(s: Seq<char>, rules: Seq<(Seq<char>, Seq<char>)>, from: int) -> Option<int>
    decreases rules.len() - from,
{
    if from < 0 || from >= rules.len() {
        None
    } else if starts_with(s, rules[from].0) {
        Some(from)
    } else {
        first_rule(s, rules, from + 1)
    }
}

/// Left-to-right rewriting: where a rule's source starts, its target
/// replaces it; elsewhere the scalar is kept.
pub open spec fn rewrite_text(s: Seq<char>, rules: Seq<(Seq<char>, Seq<char>)>) -> Seq<char>
    decreases s.len(),
{
    if s.len() == 0 {
        Seq::empty()
    } else {
        match first_rule(s, rules, 0) {
            Some(r) => if 0 <= r < rules.len() && 0 < rules[r].0.len() <= s.len() {
                rules[r].1 + rewrite_text(s.skip(rules[r].0.len() as int), rules)
            } else {
                Seq::empty()
            },
            None => seq![s[0]] + rewrite_text(s.drop_first(), rules),
        }
    }
}

proof fn lemma_first_rule_props(s: Seq<char>, rules: Seq<(Seq<char>, Seq<char>)>, from: int)
    requires
        0 <= from,
    ensures
        first_rule(s, rules, from) matches Some(r) ==> from <= r < rules.len() && starts_with(s, rules[r].0),
        first_rule(s, rules, from) is None ==> forall|j: int| from <= j < rules.len() ==> !starts_with(s, #[trigger] rules[j].0),
    decreases rules.len() - from,
{
    if from < rules.len() && !starts_with(s, rules[from].0) {
        lemma_first_rule_props(s, rules, from + 1);
    }
}

/// `p` is a non-empty prefix of `s` from position `i` on.
fn starts_at(s: &Vec<char>, i: usize, p: &Vec<char>) -> (r: bool)
    requires
        i <= s.len(),
    ensures
        r == starts_with(s@.skip(i as int), p@),
{
    if p.len() == 0 || p.len() > s.len() - i {
        return false;
    }
    let mut j: usize = 0;
    while j < p.len()
        invariant
            j <= p.len(),
            i + p.len() <= s.len(),
            forall|t: int| 0 <= t < j ==> s@[i + t] == p@[t],
        decreases p.len() - j,
    {
        if s[i + j] != p[j] {
            assert(s@.skip(i as int).take(p.len() as int)[j as int] != p@[j as int]);
            return false;
        }
        j += 1;
    }
    assert(s@.skip(i as int).take(p.len() as int) =~= p@);
    true
}

fn find_rule(s: &Vec<char>, i: usize, rules: &Vec<(Vec<char>, Vec<char>)>) -> (r: Option<usize>)
    requires
        i <= s.len(),
    ensures
        r == (match first_rule(s@.skip(i as int), rule_views(rules@), 0) {
            Some(k) => Some(k as usize),
            None => None::<usize>,
        }),
{
    let ghost rv = rule_views(rules@);
    let mut k: usize = 0;
    while k < rules.len()
        invariant
            k <= rules.len(),
            i <= s.len(),
            rv == rule_views(rules@),
            first_rule(s@.skip(i as int), rv, 0) == first_rule(s@.skip(i as int), rv, k as int),
        decreases rules.len() - k,
    {
        if starts_at(s, i, &rules[k].0) {
            return Some(k);
        }
        k += 1;
    }
    None
}

/// Rewrites `s` by the rules, left to right.
pub fn apply_rewrites(s: &Vec<char>, rules: &Vec<(Vec<char>, Vec<char>)>) -> (r: Vec<char>)
    ensures
        r@ == rewrite_text(s@, rule_views(rules@)),
{
    let ghost rv = rule_views(rules@);
    let mut out: Vec<char> = Vec::new();
    let mut i: usize = 0;
    assert(s@.skip(0) =~= s@);
    while i < s.len()
        invariant
            i <= s.len(),
            rv == rule_views(rules@),
            out@ + rewrite_text(s@.skip(i as int), rv) == rewrite_text(s@, rv),
        decreases s.len() - i,
    {
        let ghost rest = s@.skip(i as int);
        proof {
            lemma_first_rule_props(rest, rv, 0);
        }
        let found = find_rule(s, i, rules);
        match found {
            Some(k) => {
                assert(found == Some(k));
                let src_len = rules[k].0.len();
                let tgt = &rules[k].1;
                assert(rv[k as int].0 == rules@[k as int].0@);
                assert(rv[k as int].1 == rules@[k as int].1@);
                assert(first_rule(rest, rv, 0) is Some);
                let ghost j = first_rule(rest, rv, 0)->Some_0;
                assert(rv.len() == rules@.len());
                assert(0 <= j < rv.len());
                assert(j < rules.len());
                assert((j as usize) as int == j);
                assert(j == k as int);
                assert(starts_with(rest, rv[k as int].0));
                let ghost o0 = out@;
                let mut t: usize = 0;
                while t < tgt.len()
                    invariant
                        t <= tgt.len(),
                        out@ == o0 + tgt@.take(t as int),
                    decreases tgt.len() - t,
                {
                    out.push(tgt[t]);
                    t += 1;
                    assert(out@ =~= o0 + tgt@.take(t as int));
                }
                assert(tgt@.take(tgt.len() as int) =~= tgt@);
                assert(rest.skip(src_len as int) =~= s@.skip(i + src_len));
                assert(out@ + rewrite_text(s@.skip(i + src_len), rv) =~= o0 + rewrite_text(rest, rv));
                i = i + src_len;
            },
            None => {
                let ghost o0 = out@;
                out.push(s[i]);
                assert(rest.drop_first() =~= s@.skip(i + 1));
                assert(out@ + rewrite_text(s@.skip(i + 1), rv) =~= o0 + rewrite_text(rest, rv));
                i += 1;
            },
        }
    }
    assert(s@.skip(s.len() as int) =~= Seq::<char>::empty());
    assert(out@ + Seq::<char>::empty() =~= out@);
    out
}

/* ---------------------------- maximal munch ---------------------------- */

/// Among tokens `from..`, the longest that starts `s`; the first on ties.
pub open spec fn longest_token(s: Seq<char>, toks: Seq<Seq<char>>, from: int) -> Option<int>
    decreases toks.len() - from,
{
    if from < 0 || from >= toks.len() {
        None
    } else {
        let rest = longest_token(s, toks, from + 1);
        if starts_with(s, toks[from]) {
            match rest {
                Some(j) => if toks[j].len() > toks[from].len() { Some(j) } else { Some(from) },
                None => Some(from),
            }
        } else {
            rest
        }
    }
}

/// The tokens of `s` by maximal munch, as token indices.
pub open spec fn munch(s: Seq<char>, toks: Seq<Seq<char>>) -> Seq<int>
    decreases s.len(),
{
    if s.len() == 0 {
        Seq::empty()
    } else {
        match longest_token(s, toks, 0) {
            Some(k) => if 0 <= k < toks.len() && 0 < toks[k].len() <= s.len() {
                seq![k] + munch(s.skip(toks[k].len() as int), toks)
            } else {
                Seq::empty()
            },
            None => munch(s.drop_first(), toks),
        }
    }
}

proof fn lemma_longest_token_props(s: Seq<char>, toks: Seq<Seq<char>>, from: int)
    requires
        0 <= from,
    ensures
        longest_token(s, toks, from) matches Some(k) ==> from <= k < toks.len() && starts_with(s, toks[k]),
    decreases toks.len() - from,
{
    if from < toks.len() {
        lemma_longest_token_props(s, toks, from + 1);
    }
}

fn find_longest(s: &Vec<char>, i: usize, toks: &Vec<Vec<char>>) -> (r: Option<usize>)
    requires
        i <= s.len(),
    ensures
        r == (match longest_token(s@.skip(i as int), token_views(toks@), 0) {
            Some(k) => Some(k as usize),
            None => None::<usize>,
        }),
{
    let ghost tv = token_views(toks@);
    let ghost rest = s@.skip(i as int);
    let mut best: Option<usize> = None;
    let mut k: usize = toks.len();
    while k > 0
        invariant
            k <= toks.len(),
            i <= s.len(),
            tv == token_views(toks@),
            rest == s@.skip(i as int),
            best == match longest_token(rest, tv, k as int) {
                Some(j) => Some(j as usize),
                None => None::<usize>,
            },
            longest_token(rest, tv, k as int) matches Some(j) ==> k <= j < toks.len(),
        decreases k,
    {
        k -= 1;
        proof {
            lemma_longest_token_props(rest, tv, k + 1);
        }
        if starts_at(s, i, &toks[k]) {
            best = match best {
                Some(j) => if toks[j].len() > toks[k].len() { Some(j) } else { Some(k) },
                None => Some(k),
            };
        }
    }
    best
}

/// The compiled symbols of the tokens of `s`, by maximal munch.
pub open spec fn compile_text(s: Seq<char>, lex_toks: Seq<Seq<char>>, syms: Seq<char>) -> Seq<char> {
    munch(s, lex_toks).map_values(|k: int| syms[k])
}

/// Cuts `s` into tokens by maximal munch and returns their symbols.
pub fn compile_chars(lex: &Lexicon, s: &Vec<char>) -> (r: Vec<char>)
    requires
        lex.wf(),
    ensures
        r@ == compile_text(s@, token_views(lex.tokens@), lex.symbols@),
{
    let ghost tv = token_views(lex.tokens@);
    let ghost f = |k: int| lex.symbols@[k];
    let mut out: Vec<char> = Vec::new();
    let mut i: usize = 0;
    assert(s@.skip(0) =~= s@);
    while i < s.len()
        invariant
            i <= s.len(),
            lex.wf(),
            tv == token_views(lex.tokens@),
            f == (|k: int| lex.symbols@[k]),
            out@ + munch(s@.skip(i as int), tv).map_values(f) == munch(s@, tv).map_values(f),
        decreases s.len() - i,
    {
        let ghost rest = s@.skip(i as int);
        proof {
            lemma_longest_token_props(rest, tv, 0);
        }
        match find_longest(s, i, &lex.tokens) {
            Some(k) => {
                let n = lex.tokens[k].len();
                assert(tv[k as int] == lex.tokens@[k as int]@);
                assert(starts_with(rest, tv[k as int]));
                let ghost o0 = out@;
                out.push(lex.symbols[k]);
                assert(rest.skip(n as int) =~= s@.skip(i + n));
                assert((seq![k as int] + munch(rest.skip(n as int), tv)).map_values(f)
                    =~= seq![f(k as int)] + munch(rest.skip(n as int), tv).map_values(f));
                assert(out@ + munch(s@.skip(i + n), tv).map_values(f) =~= o0 + munch(rest, tv).map_values(f));
                i = i + n;
            },
            None => {
                assert(rest.drop_first() =~= s@.skip(i + 1));
                i += 1;
            },
        }
    }
    assert(s@.skip(s.len() as int) =~= Seq::<char>::empty());
    assert(munch(Seq::<char>::empty(), tv).map_values(f) =~= Seq::<char>::empty());
    assert(out@ + Seq::<char>::empty() =~= out@);
    out
}

/* ------------------------------ the pipeline ------------------------------ */

/// `UnicodeNormalization::nfc`, collected into scalars.  The result is
/// named `nfc_form(s@)`.
#[verifier::external_body]
fn nfc_chars(s: &str) -> (r: Vec<char>)
    ensures
        r@ == nfc_form(s@),
{
    s.nfc().collect::<Vec<char>>()
}

/// The compiled form of a text: NFC, then the rewrite rules, then maximal munch.
pub open spec fn regularized(s: Seq<char>, lex_toks: Seq<Seq<char>>, syms: Seq<char>,
    rules: Seq<(Seq<char>, Seq<char>)>) -> Seq<char> {
    compile_text(rewrite_text(nfc_form(s), rules), lex_toks, syms)
}

/// Normalizes a name or word to compiled letters.
pub fn regularize_name(lex: &Lexicon, s: &str) -> (r: String)
    requires
        lex.wf(),
    ensures
        r@ == regularized(s@, token_views(lex.tokens@), lex.symbols@, rule_views(lex.rules@)),
{
    let n = nfc_chars(s);
    let rw = apply_rewrites(&n, &lex.rules);
    let compiled = compile_chars(lex, &rw);
    string_from_chars(&compiled)
}

/// The compiled form of one cube face, which must be exactly one letter.
pub fn compile_face_token(lex: &Lexicon, token: &str) -> (r: Result<char, usize>)
    requires
        lex.wf(),
    ensures
        ({
            let c = regularized(token@, token_views(lex.tokens@), lex.symbols@, rule_views(lex.rules@));
            match r {
                Ok(ch) => c.len() == 1 && c[0] == ch,
                Err(n) => c.len() != 1 && n == c.len(),
            }
        }),
{
    let n = nfc_chars(token);
    let rw = apply_rewrites(&n, &lex.rules);
    let compiled = compile_chars(lex, &rw);
    if compiled.len() == 1 {
        Ok(compiled[0])
    } else {
        Err(compiled.len())
    }
}


/* ------------------------------- expanding ------------------------------- */

/// The tokens that the compiled letters of `s` stand for, concatenated; a
/// scalar that is no letter of the alphabet stays as it is.
pub open spec fn expanded(s: Seq<char>, toks: Seq<Seq<char>>, syms: Seq<char>) -> Seq<char>
    decreases s.len(),
{
    if s.len() == 0 {
        Seq::empty()
    } else {
        expanded(s.drop_last(), toks, syms) + match letter_index(syms, s.last()) {
            Some(i) => toks[i],
            None => seq![s.last()],
        }
    }
}

/// The tokens that the compiled letters of `compiled` stand for.
pub fn expand_compiled(lex: &Lexicon, alpha: &Alphabet, compiled: &str) -> (r: String)
    requires
        lex.wf(),
        alpha@ == lex.symbols@,
    ensures
        r@ == expanded(compiled@, token_views(lex.tokens@), lex.symbols@),
{
    let cs = chars_of(compiled);
    let ghost tv = token_views(lex.tokens@);
    let mut out: Vec<char> = Vec::new();
    let mut i: usize = 0;
    while i < cs.len()
        invariant
            i <= cs@.len(),
            cs@ == compiled@,
            lex.wf(),
            alpha@ == lex.symbols@,
            tv == token_views(lex.tokens@),
            out@ == expanded(cs@.take(i as int), tv, lex.symbols@),
        decreases cs.len() - i,
    {
        let c = cs[i];
        let ghost before = out@;
        proof {
            assert(cs@.take(i + 1).drop_last() =~= cs@.take(i as int));
            assert(cs@.take(i + 1).last() == c);
            lemma_letter_index_props(lex.symbols@, c);
        }
        match char_index(alpha, c) {
            Some(k) => {
                let tok = &lex.tokens[k];
                let mut j: usize = 0;
                while j < tok.len()
                    invariant
                        j <= tok@.len(),
                        out@ == before + tok@.take(j as int),
                    decreases tok.len() - j,
                {
                    out.push(tok[j]);
                    assert(tok@.take(j + 1) =~= tok@.take(j as int).push(tok@[j as int]));
                    j += 1;
                }
                assert(tok@.take(tok@.len() as int) =~= tok@);
                assert(tv[k as int] == tok@);
            },
            None => {
                out.push(c);
            },
        }
        assert(out@ =~= expanded(cs@.take(i + 1), tv, lex.symbols@));
        i += 1;
    }
    assert(cs@.take(cs@.len() as int) =~= cs@);
    string_from_chars(&out)
}

/// Whether a raw text and the tokens of its compiled form agree once both
/// are in Unicode normal form C.
pub fn raw_matches_compiled(lex: &Lexicon, alpha: &Alphabet, raw: &str, compiled: &str) -> (r: bool)
    requires
        lex.wf(),
        alpha@ == lex.symbols@,
    ensures
        r == (nfc_form(raw@) == nfc_form(expanded(compiled@, token_views(lex.tokens@), lex.symbols@))),
{
    let e = expand_compiled(lex, alpha, compiled);
    let a = nfc_chars(raw);
    let b = nfc_chars(e.as_str());
    chars_equal(&a, &b)
}

} // verus!
