//! Rewrite rules derived from an alphabet's tokens: sign-style spellings,
//! ligatures, case crosswalks, script-specific fallbacks and diacritic
//! stripping.  Each generator appends its rules to a list; the token set is
//! an increasing list of distinct tokens (see `token_set`).

use vstd::prelude::*;
use crate::bridge_tables::{
    accent_lower_table, accent_lower_table_rows, accent_upper_table, accent_upper_table_rows,
    common_marks, common_marks_rows, confusable_core, confusable_core_of, confusable_pairs,
    confusable_pairs_rows, cyrillic_subset_table, cyrillic_subset_table_rows, hebrew_finals,
    hebrew_finals_rows, latin_case_packages, latin_case_packages_rows, ligature_joins,
    ligature_joins_rows, ligature_splits, ligature_splits_rows, script_case_packages,
    script_case_packages_rows, signage_bicase_head, signage_bicase_head_rows, signage_bicase_tail,
    signage_bicase_tail_rows, signage_mono, signage_mono_rows,
};
use crate::catalog::{caps_form, lower_scalars, nfc, nfc_form, owned, rule_views, scalar_lowercase, to_upper, views, Options};
use crate::filters::utf8_len;
use crate::lexorder::scalar_value;
use crate::tokenizer::scalar_from;
use crate::glyph_db::{package_tokens, Package};
use crate::lexorder::strictly_sorted;
use crate::rule_order::{lemma_ordered_no_adjacent_repeats, lemma_ordered_sources, order_rules, ordered, ordered_rules_of, rules_sorted, RuleView};
use crate::text::{chars_equal, chars_of, str_equal, string_from_chars};
use crate::token_set::{has_str, has_token, lex_order, lex_sorted_of, token_order};
use unicode_normalization::UnicodeNormalization;

verus! {

broadcast use vstd::string::group_string_axioms;

/* ------------------------------ combinators ------------------------------ */

/// The rules `f` gives for each element of `t`, concatenated in order.
pub open spec fn rules_over<A>(t: Seq<A>, f: spec_fn(A) -> Seq<RuleView>) -> Seq<RuleView>
    decreases t.len(),
{
    if t.len() == 0 {
        Seq::empty()
    } else {
        rules_over(t.drop_last(), f) + f(t.last())
    }
}

pub proof fn lemma_rules_over_step<A>(t: Seq<A>, f: spec_fn(A) -> Seq<RuleView>, i: int)
    requires
        0 <= i < t.len(),
    ensures
        rules_over(t.take(i + 1), f) == rules_over(t.take(i), f) + f(t[i]),
{
    assert(t.take(i + 1).drop_last() =~= t.take(i));
}

pub proof fn lemma_rules_over_all<A>(t: Seq<A>, f: spec_fn(A) -> Seq<RuleView>)
    ensures
        rules_over(t.take(t.len() as int), f) == rules_over(t, f),
{
    assert(t.take(t.len() as int) =~= t);
}

/// A rule that `f` gives for an element of `t` is among `rules_over(t, f)`.
pub proof fn lemma_rules_over_has<A>(t: Seq<A>, f: spec_fn(A) -> Seq<RuleView>, k: int, x: RuleView)
    requires
        0 <= k < t.len(),
        f(t[k]).contains(x),
    ensures
        rules_over(t, f).contains(x),
    decreases t.len(),
{
    let r = rules_over(t.drop_last(), f);
    if k == t.len() - 1 {
        lemma_in_concat(r, f(t.last()), x);
    } else {
        assert(t.drop_last()[k] == t[k]);
        lemma_rules_over_has(t.drop_last(), f, k, x);
        lemma_in_concat(r, f(t.last()), x);
    }
}

/// What either part holds, the concatenation holds.
pub proof fn lemma_in_concat(a: Seq<RuleView>, b: Seq<RuleView>, x: RuleView)
    ensures
        a.contains(x) ==> (a + b).contains(x),
        b.contains(x) ==> (a + b).contains(x),
{
    if a.contains(x) {
        let i = choose|i: int| 0 <= i < a.len() && a[i] == x;
        assert((a + b)[i] == x);
    }
    if b.contains(x) {
        let j = choose|j: int| 0 <= j < b.len() && b[j] == x;
        assert((a + b)[a.len() + j] == x);
    }
}

/// The rules `f` gives for each code point `lo..=hi`, in increasing order.
pub open spec fn rules_over_codes(lo: int, hi: int, f: spec_fn(int) -> Seq<RuleView>) -> Seq<RuleView>
    decreases hi - lo + 1,
{
    if hi < lo {
        Seq::empty()
    } else {
        rules_over_codes(lo, hi - 1, f) + f(hi)
    }
}

/// One rule when `c` holds, none otherwise.
pub open spec fn when(c: bool, r: RuleView) -> Seq<RuleView> {
    if c {
        seq![r]
    } else {
        Seq::empty()
    }
}

/// `from → to`, when `to` is a token and `from` is not.
pub open spec fn target_rule(ts: Seq<Seq<char>>, from: Seq<char>, to: Seq<char>) -> Seq<RuleView> {
    when(ts.contains(to) && !ts.contains(from), (from, to))
}

/// Some token of package `p` is a token of the alphabet.
pub open spec fn in_package(ts: Seq<Seq<char>>, p: Package) -> bool {
    exists|i: int| 0 <= i < package_tokens(p).len() && ts.contains(#[trigger] package_tokens(p)[i]@)
}

/// A string cased for the alphabet: lowered for `LowerOnly`, capitalised
/// (with `ẞ` for `ß`) for `CapsOnly`, unchanged otherwise.
pub open spec fn cased_as(mode: Seq<char>, s: Seq<char>) -> Seq<char> {
    if mode == "LowerOnly"@ {
        scalar_lowercase(s)
    } else if mode == "CapsOnly"@ {
        caps_form(s, "ẞ"@)
    } else {
        s
    }
}

/* ------------------------------ exec pieces ------------------------------ */

pub(crate) fn push_rule(rw: &mut Vec<(String, String)>, from: &str, to: &str)
    ensures
        rule_views(final(rw)@) == rule_views(old(rw)@).push((from@, to@)),
{
    let ghost before = rule_views(rw@);
    rw.push((owned(from), owned(to)));
    assert(rule_views(rw@) =~= before.push((from@, to@)));
}

fn push_if_target_present(rw: &mut Vec<(String, String)>, toks: &Vec<String>, from: &str, to: &str)
    requires
        strictly_sorted(views(toks@)),
    ensures
        rule_views(final(rw)@) == rule_views(old(rw)@) + target_rule(views(toks@), from@, to@),
{
    let ghost before = rule_views(rw@);
    if has_str(toks, to) && !has_str(toks, from) {
        push_rule(rw, from, to);
        assert(before.push((from@, to@)) =~= before + seq![(from@, to@)]);
    } else {
        assert(before =~= before + Seq::<RuleView>::empty());
    }
}

/// Whether some token of package `p` is a token of the alphabet.
fn package_present(toks: &Vec<String>, p: Package) -> (r: bool)
    requires
        strictly_sorted(views(toks@)),
    ensures
        r == in_package(views(toks@), p),
{
    let list = p.tokens();
    let mut i: usize = 0;
    while i < list.len()
        invariant
            list@ == package_tokens(p),
            strictly_sorted(views(toks@)),
            i <= list.len(),
            forall|k: int| 0 <= k < i ==> !views(toks@).contains(#[trigger] package_tokens(p)[k]@),
        decreases list.len() - i,
    {
        if has_str(toks, list[i]) {
            return true;
        }
        i += 1;
    }
    false
}

/// [`cased_as`] on one string.
fn case_to(mode: &str, s: &str) -> (r: String)
    ensures
        r@ == cased_as(mode@, s@),
{
    if str_equal(mode, "LowerOnly") {
        lower_scalars(s)
    } else if str_equal(mode, "CapsOnly") {
        to_upper(s, "ẞ")
    } else {
        owned(s)
    }
}

proof fn lemma_add_assoc(a: Seq<RuleView>, b: Seq<RuleView>, c: Seq<RuleView>)
    ensures
        a + b + c == a + (b + c),
{
    assert(a + b + c =~= a + (b + c));
}

/* ------------------------------ sign spellings ------------------------------ */

/// Rules spelling a cased letter pair in Latin: both forms go to the
/// spelling in the case(s) the alphabet has, unless a form is itself kept.
pub open spec fn bicase_entry(ts: Seq<Seq<char>>, up: bool, lo: bool)
    -> spec_fn((&'static str, &'static str, &'static str, &'static str)) -> Seq<RuleView>
{
    |e: (&'static str, &'static str, &'static str, &'static str)|
        if ts.contains(e.0@) || ts.contains(e.1@) {
            Seq::empty()
        } else if up && lo {
            seq![(e.0@, e.2@), (e.1@, e.3@)]
        } else if up {
            seq![(e.0@, e.3@), (e.1@, e.3@)]
        } else if lo {
            seq![(e.0@, e.2@), (e.1@, e.2@)]
        } else {
            Seq::empty()
        }
}

/// The rule spelling a caseless letter in Latin, small spelling preferred.
pub open spec fn mono_entry(ts: Seq<Seq<char>>, up: bool, lo: bool)
    -> spec_fn((&'static str, &'static str, &'static str)) -> Seq<RuleView>
{
    |e: (&'static str, &'static str, &'static str)|
        if ts.contains(e.0@) {
            Seq::empty()
        } else if lo {
            seq![(e.0@, e.1@)]
        } else if up {
            seq![(e.0@, e.2@)]
        } else {
            Seq::empty()
        }
}

/// Sign-style spellings (`ä → ae`, `þ → th`, …), given whether the alphabet
/// has Latin capitals (`up`) and small letters (`lo`).
pub open spec fn signage_rules(ts: Seq<Seq<char>>, up: bool, lo: bool) -> Seq<RuleView> {
    rules_over(signage_bicase_head(), bicase_entry(ts, up, lo))
        + rules_over(signage_mono(), mono_entry(ts, up, lo))
        + rules_over(signage_bicase_tail(), bicase_entry(ts, up, lo))
}

fn emit_bicase(rw: &mut Vec<(String, String)>, toks: &Vec<String>, up: bool, lo: bool,
    e: (&'static str, &'static str, &'static str, &'static str))
    requires
        strictly_sorted(views(toks@)),
    ensures
        rule_views(final(rw)@) == rule_views(old(rw)@) + bicase_entry(views(toks@), up, lo)(e),
{
    let ghost before = rule_views(rw@);
    if has_str(toks, e.0) || has_str(toks, e.1) {
        assert(before =~= before + Seq::<RuleView>::empty());
    } else if up && lo {
        push_rule(rw, e.0, e.2);
        push_rule(rw, e.1, e.3);
        assert(rule_views(rw@) =~= before + seq![(e.0@, e.2@), (e.1@, e.3@)]);
    } else if up {
        push_rule(rw, e.0, e.3);
        push_rule(rw, e.1, e.3);
        assert(rule_views(rw@) =~= before + seq![(e.0@, e.3@), (e.1@, e.3@)]);
    } else if lo {
        push_rule(rw, e.0, e.2);
        push_rule(rw, e.1, e.2);
        assert(rule_views(rw@) =~= before + seq![(e.0@, e.2@), (e.1@, e.2@)]);
    } else {
        assert(before =~= before + Seq::<RuleView>::empty());
    }
}

fn emit_bicase_rows(rw: &mut Vec<(String, String)>, toks: &Vec<String>, up: bool, lo: bool,
    rows: &[(&'static str, &'static str, &'static str, &'static str)])
    requires
        strictly_sorted(views(toks@)),
    ensures
        rule_views(final(rw)@) == rule_views(old(rw)@) + rules_over(rows@, bicase_entry(views(toks@), up, lo)),
{
    let ghost start = rule_views(rw@);
    let ghost f = bicase_entry(views(toks@), up, lo);
    let mut i: usize = 0;
    assert(start =~= start + rules_over(rows@.take(0), f));
    while i < rows.len()
        invariant
            strictly_sorted(views(toks@)),
            f == bicase_entry(views(toks@), up, lo),
            i <= rows.len(),
            rule_views(rw@) == start + rules_over(rows@.take(i as int), f),
        decreases rows.len() - i,
    {
        emit_bicase(rw, toks, up, lo, rows[i]);
        proof {
            lemma_rules_over_step(rows@, f, i as int);
            lemma_add_assoc(start, rules_over(rows@.take(i as int), f), f(rows@[i as int]));
        }
        i += 1;
    }
    proof {
        lemma_rules_over_all(rows@, f);
    }
}

/// Appends the sign-style spellings.
fn signage_translits(rw: &mut Vec<(String, String)>, toks: &Vec<String>, up: bool, lo: bool)
    requires
        strictly_sorted(views(toks@)),
    ensures
        rule_views(final(rw)@) == rule_views(old(rw)@) + signage_rules(views(toks@), up, lo),
{
    let ghost ts = views(toks@);
    let ghost start = rule_views(rw@);
    emit_bicase_rows(rw, toks, up, lo, signage_bicase_head_rows());
    let ghost mid1 = rule_views(rw@);
    let rows = signage_mono_rows();
    let ghost f = mono_entry(ts, up, lo);
    let mut i: usize = 0;
    assert(mid1 =~= mid1 + rules_over(rows@.take(0), f));
    while i < rows.len()
        invariant
            strictly_sorted(views(toks@)),
            ts == views(toks@),
            f == mono_entry(ts, up, lo),
            rows@ == signage_mono(),
            i <= rows.len(),
            rule_views(rw@) == mid1 + rules_over(rows@.take(i as int), f),
        decreases rows.len() - i,
    {
        let e = rows[i];
        let ghost before = rule_views(rw@);
        if has_str(toks, e.0) {
            assert(before =~= before + f(e));
        } else if lo {
            push_rule(rw, e.0, e.1);
            assert(rule_views(rw@) =~= before + f(e));
        } else if up {
            push_rule(rw, e.0, e.2);
            assert(rule_views(rw@) =~= before + f(e));
        } else {
            assert(before =~= before + f(e));
        }
        proof {
            lemma_rules_over_step(rows@, f, i as int);
            lemma_add_assoc(mid1, rules_over(rows@.take(i as int), f), f(rows@[i as int]));
        }
        i += 1;
    }
    proof {
        lemma_rules_over_all(rows@, f);
    }
    emit_bicase_rows(rw, toks, up, lo, signage_bicase_tail_rows());
    proof {
        lemma_add_assoc(start, rules_over(signage_bicase_head(), bicase_entry(ts, up, lo)), rules_over(signage_mono(), f));
        lemma_add_assoc(start, rules_over(signage_bicase_head(), bicase_entry(ts, up, lo)) + rules_over(signage_mono(), f),
            rules_over(signage_bicase_tail(), bicase_entry(ts, up, lo)));
    }
}

/* -------------------------------- ligatures -------------------------------- */

/// A ligature is split into its letters unless it is itself a token.
pub open spec fn split_entry(ts: Seq<Seq<char>>) -> spec_fn((&'static str, &'static str)) -> Seq<RuleView> {
    |e: (&'static str, &'static str)| when(!ts.contains(e.0@), (e.0@, e.1@))
}

/// A letter run is joined into its ligature when the ligature is a token.
pub open spec fn join_entry(ts: Seq<Seq<char>>) -> spec_fn((&'static str, &'static str)) -> Seq<RuleView> {
    |e: (&'static str, &'static str)| when(ts.contains(e.1@), (e.0@, e.1@))
}

/// Ligature rules: split them when ligatures are not kept; join letter runs
/// when they are kept and typographic rewriting is asked for.
pub open spec fn ligature_rules(ts: Seq<Seq<char>>, keep: bool, typographic: bool) -> Seq<RuleView> {
    (if !keep { rules_over(ligature_splits(), split_entry(ts)) } else { Seq::empty() })
        + (if keep && typographic { rules_over(ligature_joins(), join_entry(ts)) } else { Seq::empty() })
}

/// Appends the ligature rules.
fn apply_ligature_rules(rw: &mut Vec<(String, String)>, toks: &Vec<String>, keep: bool, typographic: bool)
    requires
        strictly_sorted(views(toks@)),
    ensures
        rule_views(final(rw)@) == rule_views(old(rw)@) + ligature_rules(views(toks@), keep, typographic),
{
    let ghost ts = views(toks@);
    let ghost start = rule_views(rw@);
    if !keep {
        let rows = ligature_splits_rows();
        let ghost f = split_entry(ts);
        let mut i: usize = 0;
        assert(start =~= start + rules_over(rows@.take(0), f));
        while i < rows.len()
            invariant
                strictly_sorted(views(toks@)),
                ts == views(toks@),
                f == split_entry(ts),
                i <= rows.len(),
                rule_views(rw@) == start + rules_over(rows@.take(i as int), f),
            decreases rows.len() - i,
        {
            let e = rows[i];
            let ghost before = rule_views(rw@);
            if !has_str(toks, e.0) {
                push_rule(rw, e.0, e.1);
            }
            assert(rule_views(rw@) =~= before + f(e));
            proof {
                lemma_rules_over_step(rows@, f, i as int);
                lemma_add_assoc(start, rules_over(rows@.take(i as int), f), f(rows@[i as int]));
            }
            i += 1;
        }
        proof {
            lemma_rules_over_all(rows@, f);
        }
    } else {
        assert(start =~= start + Seq::<RuleView>::empty());
    }
    let ghost mid = rule_views(rw@);
    if keep && typographic {
        let rows = ligature_joins_rows();
        let ghost f = join_entry(ts);
        let mut i: usize = 0;
        assert(mid =~= mid + rules_over(rows@.take(0), f));
        while i < rows.len()
            invariant
                strictly_sorted(views(toks@)),
                ts == views(toks@),
                f == join_entry(ts),
                i <= rows.len(),
                rule_views(rw@) == mid + rules_over(rows@.take(i as int), f),
            decreases rows.len() - i,
        {
            let e = rows[i];
            let ghost before = rule_views(rw@);
            if has_str(toks, e.1) {
                push_rule(rw, e.0, e.1);
            }
            assert(rule_views(rw@) =~= before + f(e));
            proof {
                lemma_rules_over_step(rows@, f, i as int);
                lemma_add_assoc(mid, rules_over(rows@.take(i as int), f), f(rows@[i as int]));
            }
            i += 1;
        }
        proof {
            lemma_rules_over_all(rows@, f);
        }
    } else {
        assert(mid =~= mid + Seq::<RuleView>::empty());
    }
    proof {
        let a = if !keep { rules_over(ligature_splits(), split_entry(ts)) } else { Seq::<RuleView>::empty() };
        let b = if keep && typographic { rules_over(ligature_joins(), join_entry(ts)) } else { Seq::<RuleView>::empty() };
        lemma_add_assoc(start, a, b);
    }
}

/* ------------------------------- case pairs ------------------------------- */

/// The tokens of two packages paired position by position, as far as the
/// shorter goes.
pub open spec fn zip_tokens(a: Seq<&'static str>, b: Seq<&'static str>) -> Seq<(&'static str, &'static str)> {
    Seq::new(if a.len() < b.len() { a.len() } else { b.len() }, |i: int| (a[i], b[i]))
}

/// A capital and its small letter: when only one is a token, the other is
/// rewritten to it.
pub open spec fn case_pair_entry(ts: Seq<Seq<char>>) -> spec_fn((&'static str, &'static str)) -> Seq<RuleView> {
    |e: (&'static str, &'static str)|
        if ts.contains(e.0@) && !ts.contains(e.1@) {
            seq![(e.1@, e.0@)]
        } else if ts.contains(e.1@) && !ts.contains(e.0@) {
            seq![(e.0@, e.1@)]
        } else {
            Seq::empty()
        }
}

/// The case crosswalk between a package of capitals and one of small letters.
pub open spec fn case_pair_rules(ts: Seq<Seq<char>>, up: Package, lo: Package) -> Seq<RuleView> {
    rules_over(zip_tokens(package_tokens(up), package_tokens(lo)), case_pair_entry(ts))
}

/// [`case_pair_rules`] for each package pair of a table.
pub open spec fn package_pairs_entry(ts: Seq<Seq<char>>) -> spec_fn((Package, Package)) -> Seq<RuleView> {
    |p: (Package, Package)| case_pair_rules(ts, p.0, p.1)
}

/// Appends the case crosswalk of two packages.
fn push_case_pairs(rw: &mut Vec<(String, String)>, toks: &Vec<String>, up: Package, lo: Package)
    requires
        strictly_sorted(views(toks@)),
    ensures
        rule_views(final(rw)@) == rule_views(old(rw)@) + case_pair_rules(views(toks@), up, lo),
{
    let ghost ts = views(toks@);
    let ghost start = rule_views(rw@);
    let ghost f = case_pair_entry(ts);
    let ghost z = zip_tokens(package_tokens(up), package_tokens(lo));
    let ups = up.tokens();
    let los = lo.tokens();
    let n = if ups.len() < los.len() { ups.len() } else { los.len() };
    let mut i: usize = 0;
    assert(start =~= start + rules_over(z.take(0), f));
    while i < n
        invariant
            strictly_sorted(views(toks@)),
            ts == views(toks@),
            f == case_pair_entry(ts),
            ups@ == package_tokens(up),
            los@ == package_tokens(lo),
            z == zip_tokens(package_tokens(up), package_tokens(lo)),
            n == z.len(),
            n <= ups.len(),
            n <= los.len(),
            i <= n,
            rule_views(rw@) == start + rules_over(z.take(i as int), f),
        decreases n - i,
    {
        let u = ups[i];
        let l = los[i];
        let ghost before = rule_views(rw@);
        let hu = has_str(toks, u);
        let hl = has_str(toks, l);
        if hu && !hl {
            push_rule(rw, l, u);
        } else if hl && !hu {
            push_rule(rw, u, l);
        }
        assert(z[i as int] == (u, l));
        assert(rule_views(rw@) =~= before + f(z[i as int]));
        proof {
            lemma_rules_over_step(z, f, i as int);
            lemma_add_assoc(start, rules_over(z.take(i as int), f), f(z[i as int]));
        }
        i += 1;
    }
    proof {
        lemma_rules_over_all(z, f);
    }
}

/// Appends the case crosswalks of each package pair of a table.
fn push_package_pairs(rw: &mut Vec<(String, String)>, toks: &Vec<String>, rows: &[(Package, Package)])
    requires
        strictly_sorted(views(toks@)),
    ensures
        rule_views(final(rw)@) == rule_views(old(rw)@) + rules_over(rows@, package_pairs_entry(views(toks@))),
{
    let ghost ts = views(toks@);
    let ghost start = rule_views(rw@);
    let ghost f = package_pairs_entry(ts);
    let mut i: usize = 0;
    assert(start =~= start + rules_over(rows@.take(0), f));
    while i < rows.len()
        invariant
            strictly_sorted(views(toks@)),
            ts == views(toks@),
            f == package_pairs_entry(ts),
            i <= rows.len(),
            rule_views(rw@) == start + rules_over(rows@.take(i as int), f),
        decreases rows.len() - i,
    {
        let (up, lo) = rows[i];
        push_case_pairs(rw, toks, up, lo);
        proof {
            lemma_rules_over_step(rows@, f, i as int);
            lemma_add_assoc(start, rules_over(rows@.take(i as int), f), f(rows@[i as int]));
        }
        i += 1;
    }
    proof {
        lemma_rules_over_all(rows@, f);
    }
}

/* ----------------------------- first candidate ----------------------------- */

/// The first candidate that is a token.
pub open spec fn first_present(ts: Seq<Seq<char>>, c: Seq<&'static str>) -> Option<Seq<char>>
    decreases c.len(),
{
    if c.len() == 0 {
        None
    } else if ts.contains(c[0]@) {
        Some(c[0]@)
    } else {
        first_present(ts, c.drop_first())
    }
}

/// `from` goes to the first candidate that is a token, unless `from` is one.
pub open spec fn to_any_rule(ts: Seq<Seq<char>>, from: Seq<char>, c: Seq<&'static str>) -> Seq<RuleView> {
    if ts.contains(from) {
        Seq::empty()
    } else {
        match first_present(ts, c) {
            Some(t) => seq![(from, t)],
            None => Seq::empty(),
        }
    }
}

fn push_to_any(rw: &mut Vec<(String, String)>, toks: &Vec<String>, from: &str, cands: &[&'static str])
    requires
        strictly_sorted(views(toks@)),
    ensures
        rule_views(final(rw)@) == rule_views(old(rw)@) + to_any_rule(views(toks@), from@, cands@),
{
    let ghost ts = views(toks@);
    let ghost before = rule_views(rw@);
    if has_str(toks, from) {
        assert(before =~= before + Seq::<RuleView>::empty());
    } else {
        let mut i: usize = 0;
        let mut found = false;
        assert(cands@.skip(0) =~= cands@);
        while i < cands.len() && !found
            invariant
                strictly_sorted(views(toks@)),
                ts == views(toks@),
                i <= cands.len(),
                found ==> i < cands.len() && first_present(ts, cands@) == Some(cands@[i as int]@),
                !found ==> first_present(ts, cands@) == first_present(ts, cands@.skip(i as int)),
            decreases cands.len() - i + (if found { 0int } else { 1int }),
        {
            if has_str(toks, cands[i]) {
                assert(cands@.skip(i as int)[0] == cands@[i as int]);
                found = true;
            } else {
                assert(cands@.skip(i as int).drop_first() =~= cands@.skip(i + 1));
                i += 1;
            }
        }
        if found {
            push_rule(rw, from, cands[i]);
            assert(rule_views(rw@) =~= before + seq![(from@, cands@[i as int]@)]);
        } else {
            assert(cands@.skip(i as int).len() == 0);
            assert(before =~= before + Seq::<RuleView>::empty());
        }
    }
}

/// The fallbacks for Greenlandic kra and eng and for the cedilla forms of
/// Romanian ş and ţ.
pub open spec fn to_any_rules(ts: Seq<Seq<char>>) -> Seq<RuleView> {
    to_any_rule(ts, "ĸ"@, seq!["k", "K"])
        + to_any_rule(ts, "Ŋ"@, seq!["ŋ"])
        + to_any_rule(ts, "ŋ"@, seq!["Ŋ"])
        + to_any_rule(ts, "ţ"@, seq!["ț", "t", "T"])
        + to_any_rule(ts, "Ţ"@, seq!["Ț", "T", "t"])
        + to_any_rule(ts, "ş"@, seq!["ș", "s", "S"])
        + to_any_rule(ts, "Ş"@, seq!["Ș", "S", "s"])
}

#[verifier::rlimit(40)]
fn push_to_any_rules(rw: &mut Vec<(String, String)>, toks: &Vec<String>)
    requires
        strictly_sorted(views(toks@)),
    ensures
        rule_views(final(rw)@) == rule_views(old(rw)@) + to_any_rules(views(toks@)),
{
    let ghost ts = views(toks@);
    let ghost start = rule_views(rw@);
    let c1: &[&'static str] = &["k", "K"];
    assert(c1@ == seq!["k", "K"]);
    push_to_any(rw, toks, "ĸ", c1);
    let c2: &[&'static str] = &["ŋ"];
    assert(c2@ == seq!["ŋ"]);
    push_to_any(rw, toks, "Ŋ", c2);
    let c3: &[&'static str] = &["Ŋ"];
    assert(c3@ == seq!["Ŋ"]);
    push_to_any(rw, toks, "ŋ", c3);
    let c4: &[&'static str] = &["ț", "t", "T"];
    assert(c4@ == seq!["ț", "t", "T"]);
    push_to_any(rw, toks, "ţ", c4);
    let c5: &[&'static str] = &["Ț", "T", "t"];
    assert(c5@ == seq!["Ț", "T", "t"]);
    push_to_any(rw, toks, "Ţ", c5);
    let c6: &[&'static str] = &["ș", "s", "S"];
    assert(c6@ == seq!["ș", "s", "S"]);
    push_to_any(rw, toks, "ş", c6);
    let c7: &[&'static str] = &["Ș", "S", "s"];
    assert(c7@ == seq!["Ș", "S", "s"]);
    push_to_any(rw, toks, "Ş", c7);
    assert(rule_views(rw@) =~= start + to_any_rules(ts));
}

/* ------------------------------ Greek, Hebrew ------------------------------ */

/// Final sigma falls back to sigma; with language-specific bridges, the
/// decomposed iota and upsilon with dialytika and tonos go to their
/// precomposed forms when those are tokens.
pub open spec fn greek_rules(ts: Seq<Seq<char>>, lsb: bool) -> Seq<RuleView> {
    target_rule(ts, "ς"@, "σ"@) + if lsb {
        (if ts.contains("ΐ"@) { seq![("ϊ\u{0301}"@, "ΐ"@), ("ι\u{0308}\u{0301}"@, "ΐ"@)] } else { Seq::empty() })
            + (if ts.contains("ΰ"@) { seq![("ϋ\u{0301}"@, "ΰ"@), ("υ\u{0308}\u{0301}"@, "ΰ"@)] } else { Seq::empty() })
    } else {
        Seq::empty()
    }
}

fn greek_bridges(rw: &mut Vec<(String, String)>, toks: &Vec<String>, lsb: bool)
    requires
        strictly_sorted(views(toks@)),
    ensures
        rule_views(final(rw)@) == rule_views(old(rw)@) + greek_rules(views(toks@), lsb),
{
    let ghost start = rule_views(rw@);
    push_if_target_present(rw, toks, "ς", "σ");
    if lsb {
        if has_str(toks, "ΐ") {
            push_rule(rw, "ϊ\u{0301}", "ΐ");
            push_rule(rw, "ι\u{0308}\u{0301}", "ΐ");
        }
        if has_str(toks, "ΰ") {
            push_rule(rw, "ϋ\u{0301}", "ΰ");
            push_rule(rw, "υ\u{0308}\u{0301}", "ΰ");
        }
    }
    assert(rule_views(rw@) =~= start + greek_rules(views(toks@), lsb));
}

/// `from → to` for each row, when `to` is a token and `from` is not.
pub open spec fn target_entry(ts: Seq<Seq<char>>) -> spec_fn((&'static str, &'static str)) -> Seq<RuleView> {
    |e: (&'static str, &'static str)| target_rule(ts, e.0@, e.1@)
}

/// Hebrew final letters fall back to their base letters.
pub open spec fn hebrew_rules(ts: Seq<Seq<char>>) -> Seq<RuleView> {
    rules_over(hebrew_finals(), target_entry(ts))
}

fn hebrew_final_bridges(rw: &mut Vec<(String, String)>, toks: &Vec<String>)
    requires
        strictly_sorted(views(toks@)),
    ensures
        rule_views(final(rw)@) == rule_views(old(rw)@) + hebrew_rules(views(toks@)),
{
    let ghost ts = views(toks@);
    let ghost start = rule_views(rw@);
    let ghost f = target_entry(ts);
    let rows = hebrew_finals_rows();
    let mut i: usize = 0;
    assert(start =~= start + rules_over(rows@.take(0), f));
    while i < rows.len()
        invariant
            strictly_sorted(views(toks@)),
            ts == views(toks@),
            f == target_entry(ts),
            rows@ == hebrew_finals(),
            i <= rows.len(),
            rule_views(rw@) == start + rules_over(rows@.take(i as int), f),
        decreases rows.len() - i,
    {
        let e = rows[i];
        push_if_target_present(rw, toks, e.0, e.1);
        proof {
            lemma_rules_over_step(rows@, f, i as int);
            lemma_add_assoc(start, rules_over(rows@.take(i as int), f), f(rows@[i as int]));
        }
        i += 1;
    }
    proof {
        lemma_rules_over_all(rows@, f);
    }
}

/* --------------------------------- kana --------------------------------- */

/// A kana whose first scalar lies in `lo..=hi` falls back to the kana `d`
/// code points away, when that one is a token.
pub open spec fn kana_entry(ts: Seq<Seq<char>>, lo: int, hi: int, d: int) -> spec_fn(&'static str) -> Seq<RuleView> {
    |k: &'static str|
        if k@.len() > 0 && lo <= k@[0] as int <= hi {
            target_rule(ts, k@, seq![((k@[0] as int) + d) as char])
        } else {
            Seq::empty()
        }
}

/// With hiragana only, katakana fall back to hiragana; with katakana only,
/// hiragana fall back to katakana.
pub open spec fn kana_rules(ts: Seq<Seq<char>>) -> Seq<RuleView> {
    let hira = in_package(ts, Package::Hiragana);
    let kata = in_package(ts, Package::Katakana);
    if hira && !kata {
        rules_over(package_tokens(Package::Katakana), kana_entry(ts, 0x30A1, 0x30F6, -0x60))
    } else if kata && !hira {
        rules_over(package_tokens(Package::Hiragana), kana_entry(ts, 0x3041, 0x3096, 0x60))
    } else {
        Seq::empty()
    }
}

/// The scalar with value `v`.
fn char_of_code(v: u32) -> (c: char)
    requires
        v <= 0x10FFFF,
        !(0xD800 <= v <= 0xDFFF),
    ensures
        c == (v as int) as char,
{
    match scalar_from(v) {
        Some(c) => c,
        None => '\0',
    }
}

/// The one-scalar string `c`.
fn string_of_char(c: char) -> (r: String)
    ensures
        r@ == seq![c],
{
    let mut v: Vec<char> = Vec::new();
    v.push(c);
    let r = string_from_chars(&v);
    assert(v@ =~= seq![c]);
    r
}

fn kana_shift_rows(rw: &mut Vec<(String, String)>, toks: &Vec<String>, p: Package, lo: u32, hi: u32, up: bool)
    requires
        strictly_sorted(views(toks@)),
        up ==> 0x60 <= lo && hi + 0x60 <= 0xD7FF,
        !up ==> 0x60 <= lo && hi <= 0xD7FF,
    ensures
        rule_views(final(rw)@) == rule_views(old(rw)@)
            + rules_over(package_tokens(p), kana_entry(views(toks@), lo as int, hi as int, if up { 0x60int } else { -0x60int })),
{
    let ghost ts = views(toks@);
    let ghost start = rule_views(rw@);
    let ghost f = kana_entry(ts, lo as int, hi as int, if up { 0x60int } else { -0x60int });
    let rows = p.tokens();
    let mut i: usize = 0;
    assert(start =~= start + rules_over(rows@.take(0), f));
    while i < rows.len()
        invariant
            strictly_sorted(views(toks@)),
            ts == views(toks@),
            f == kana_entry(ts, lo as int, hi as int, if up { 0x60int } else { -0x60int }),
            up ==> 0x60 <= lo && hi + 0x60 <= 0xD7FF,
            !up ==> 0x60 <= lo && hi <= 0xD7FF,
            i <= rows.len(),
            rule_views(rw@) == start + rules_over(rows@.take(i as int), f),
        decreases rows.len() - i,
    {
        let k = rows[i];
        let ghost before = rule_views(rw@);
        let cs = chars_of(k);
        if cs.len() > 0 {
            let u = scalar_value(cs[0]);
            if lo <= u && u <= hi {
                let v = if up { u + 0x60 } else { u - 0x60 };
                let c = char_of_code(v);
                let t = string_of_char(c);
                push_if_target_present(rw, toks, k, t.as_str());
            } else {
                assert(before =~= before + Seq::<RuleView>::empty());
            }
        } else {
            assert(before =~= before + Seq::<RuleView>::empty());
        }
        assert(rule_views(rw@) == before + f(k));
        proof {
            lemma_rules_over_step(rows@, f, i as int);
            lemma_add_assoc(start, rules_over(rows@.take(i as int), f), f(rows@[i as int]));
        }
        i += 1;
    }
    proof {
        lemma_rules_over_all(rows@, f);
    }
}

fn kana_bridges(rw: &mut Vec<(String, String)>, toks: &Vec<String>)
    requires
        strictly_sorted(views(toks@)),
    ensures
        rule_views(final(rw)@) == rule_views(old(rw)@) + kana_rules(views(toks@)),
{
    let ghost before = rule_views(rw@);
    let hira = package_present(toks, Package::Hiragana);
    let kata = package_present(toks, Package::Katakana);
    if hira && !kata {
        kana_shift_rows(rw, toks, Package::Katakana, 0x30A1, 0x30F6, false);
    } else if kata && !hira {
        kana_shift_rows(rw, toks, Package::Hiragana, 0x3041, 0x3096, true);
    } else {
        assert(before =~= before + Seq::<RuleView>::empty());
    }
}

/* ---------------------------- Cyrillic subsets ---------------------------- */

/// A letter of another Cyrillic orthography goes to its Russian stand-in,
/// cased for the alphabet, unless the letter is itself a token.
pub open spec fn cyr_subset_entry(ts: Seq<Seq<char>>, mode: Seq<char>) -> spec_fn((&'static str, &'static str)) -> Seq<RuleView> {
    |e: (&'static str, &'static str)| when(!ts.contains(e.0@), (e.0@, cased_as(mode, e.1@)))
}

/// The Cyrillic stand-ins, when the alphabet has Russian letters.
pub open spec fn cyrillic_subset_rules(ts: Seq<Seq<char>>, mode: Seq<char>) -> Seq<RuleView> {
    if in_package(ts, Package::CyrillicRuCaps) || in_package(ts, Package::CyrillicRuLower) {
        rules_over(cyrillic_subset_table(), cyr_subset_entry(ts, mode))
    } else {
        Seq::empty()
    }
}

fn cyrillic_subset_bridges(rw: &mut Vec<(String, String)>, toks: &Vec<String>, mode: &str)
    requires
        strictly_sorted(views(toks@)),
    ensures
        rule_views(final(rw)@) == rule_views(old(rw)@) + cyrillic_subset_rules(views(toks@), mode@),
{
    let ghost ts = views(toks@);
    let ghost start = rule_views(rw@);
    if !(package_present(toks, Package::CyrillicRuCaps) || package_present(toks, Package::CyrillicRuLower)) {
        assert(start =~= start + Seq::<RuleView>::empty());
        return;
    }
    let ghost f = cyr_subset_entry(ts, mode@);
    let rows = cyrillic_subset_table_rows();
    let mut i: usize = 0;
    assert(start =~= start + rules_over(rows@.take(0), f));
    while i < rows.len()
        invariant
            strictly_sorted(views(toks@)),
            ts == views(toks@),
            f == cyr_subset_entry(ts, mode@),
            rows@ == cyrillic_subset_table(),
            i <= rows.len(),
            rule_views(rw@) == start + rules_over(rows@.take(i as int), f),
        decreases rows.len() - i,
    {
        let e = rows[i];
        let ghost before = rule_views(rw@);
        if !has_str(toks, e.0) {
            let t = case_to(mode, e.1);
            push_rule(rw, e.0, t.as_str());
        }
        assert(rule_views(rw@) =~= before + f(e));
        proof {
            lemma_rules_over_step(rows@, f, i as int);
            lemma_add_assoc(start, rules_over(rows@.take(i as int), f), f(rows@[i as int]));
        }
        i += 1;
    }
    proof {
        lemma_rules_over_all(rows@, f);
    }
}

/* ------------------------------ mark stripping ------------------------------ */

/// The canonical decomposition (NFD, UAX #15) of a string.
pub uninterp spec fn nfd_form(s: Seq<char>) -> Seq<char>;

/// `UnicodeNormalization::nfd`, collected into a string.  The decomposition
/// is not restated; the result is named `nfd_form(s@)`.
#[verifier::external_body]
fn nfd(s: &str) -> (r: String)
    ensures
        r@ == nfd_form(s@),
{
    s.nfd().collect::<String>()
}

/// A combining mark of the blocks the alphabet builder strips.
pub open spec fn is_combining_mark(c: char) -> bool {
    let v = c as int;
    (0x0300 <= v <= 0x036F) || (0x0483 <= v <= 0x0489) || (0x1AB0 <= v <= 0x1AFF)
        || (0x1DC0 <= v <= 0x1DFF) || (0x20D0 <= v <= 0x20FF) || (0xFE20 <= v <= 0xFE2F)
}

/// `s` without its combining marks.
pub open spec fn without_marks(s: Seq<char>) -> Seq<char>
    decreases s.len(),
{
    if s.len() == 0 {
        s
    } else if is_combining_mark(s.last()) {
        without_marks(s.drop_last())
    } else {
        without_marks(s.drop_last()).push(s.last())
    }
}

/// `s` decomposed, stripped of combining marks and recomposed.
pub open spec fn strip_marks(s: Seq<char>) -> Seq<char> {
    nfc_form(without_marks(nfd_form(s)))
}

fn combining_mark(c: char) -> (r: bool)
    ensures
        r == is_combining_mark(c),
{
    let v = scalar_value(c);
    (0x0300 <= v && v <= 0x036F) || (0x0483 <= v && v <= 0x0489) || (0x1AB0 <= v && v <= 0x1AFF)
        || (0x1DC0 <= v && v <= 0x1DFF) || (0x20D0 <= v && v <= 0x20FF) || (0xFE20 <= v && v <= 0xFE2F)
}

/// [`strip_marks`] of one string.
fn strip_marks_of(s: &str) -> (r: String)
    ensures
        r@ == strip_marks(s@),
{
    let d = nfd(s);
    let cs = chars_of(d.as_str());
    let mut out: Vec<char> = Vec::new();
    let mut i: usize = 0;
    while i < cs.len()
        invariant
            i <= cs.len(),
            out@ == without_marks(cs@.take(i as int)),
        decreases cs.len() - i,
    {
        assert(cs@.take(i + 1).drop_last() =~= cs@.take(i as int));
        if !combining_mark(cs[i]) {
            out.push(cs[i]);
        }
        i += 1;
    }
    assert(cs@.take(i as int) =~= cs@);
    let t = string_from_chars(&out);
    nfc(t.as_str())
}

proof fn lemma_utf8_len_at_least(s: Seq<char>)
    ensures
        utf8_len(s) >= s.len(),
    decreases s.len(),
{
    if s.len() > 0 {
        lemma_utf8_len_at_least(s.drop_last());
    }
}

/// A string of one UTF-8 byte is one ASCII scalar.
proof fn lemma_utf8_len_one(s: Seq<char>)
    ensures
        (utf8_len(s) == 1) == (s.len() == 1 && (s[0] as int) < 0x80),
{
    if s.len() >= 2 {
        lemma_utf8_len_at_least(s);
    } else if s.len() == 1 {
        assert(s.drop_last().len() == 0);
        assert(utf8_len(s.drop_last()) == 0);
        assert(s.last() == s[0]);
    }
}

/* ------------------------------ confusables ------------------------------ */

/// A Latin letter goes to the Cyrillic letter drawn like it, cased for the
/// alphabet, unless an earlier rule already rewrites it.
pub open spec fn conf_latin_entry(ts: Seq<Seq<char>>, mode: Seq<char>, bl: Seq<Seq<char>>)
    -> spec_fn((&'static str, &'static str)) -> Seq<RuleView>
{
    |e: (&'static str, &'static str)|
        if bl.contains(e.0@) { Seq::empty() } else { target_rule(ts, e.0@, cased_as(mode, e.1@)) }
}

/// The mirror rule: the Cyrillic letter goes to the Latin one.
pub open spec fn conf_cyr_entry(ts: Seq<Seq<char>>, mode: Seq<char>, bl: Seq<Seq<char>>)
    -> spec_fn((&'static str, &'static str)) -> Seq<RuleView>
{
    |e: (&'static str, &'static str)|
        if bl.contains(e.1@) { Seq::empty() } else { target_rule(ts, e.1@, cased_as(mode, e.0@)) }
}

/// An accented Latin letter whose stripped form is one ASCII letter with a
/// Cyrillic look-alike goes to that look-alike.
pub open spec fn accented_confusable(ts: Seq<Seq<char>>, mode: Seq<char>, bl: Seq<Seq<char>>)
    -> spec_fn(int) -> Seq<RuleView>
{
    |cp: int| {
        let s = seq![cp as char];
        if bl.contains(s) {
            Seq::empty()
        } else {
            let b = strip_marks(s);
            if utf8_len(b) == 1 && confusable_core(b[0]) is Some {
                target_rule(ts, s, cased_as(mode, confusable_core(b[0])->Some_0@))
            } else {
                Seq::empty()
            }
        }
    }
}

/// Latin/Cyrillic look-alike rules, with `bl` the sources earlier rules
/// already rewrite.  Accented Latin letters are mapped only when the
/// alphabet has no ASCII `A`/`a`.
pub open spec fn confusable_rules(ts: Seq<Seq<char>>, mode: Seq<char>, bl: Seq<Seq<char>>) -> Seq<RuleView> {
    rules_over(confusable_pairs(), conf_latin_entry(ts, mode, bl))
        + (if ts.contains("A"@) || ts.contains("a"@) {
            Seq::empty()
        } else {
            rules_over_codes(0xC0, 0x24F, accented_confusable(ts, mode, bl))
        })
        + target_rule(ts, "4"@, cased_as(mode, "Ч"@))
        + rules_over(confusable_pairs(), conf_cyr_entry(ts, mode, bl))
}

fn confusable_rows(rw: &mut Vec<(String, String)>, toks: &Vec<String>, mode: &str, blocked: &Vec<String>, mirror: bool)
    requires
        strictly_sorted(views(toks@)),
        strictly_sorted(views(blocked@)),
    ensures
        rule_views(final(rw)@) == rule_views(old(rw)@) + rules_over(confusable_pairs(),
            if mirror { conf_cyr_entry(views(toks@), mode@, views(blocked@)) }
            else { conf_latin_entry(views(toks@), mode@, views(blocked@)) }),
{
    let ghost ts = views(toks@);
    let ghost bl = views(blocked@);
    let ghost start = rule_views(rw@);
    let ghost f = if mirror { conf_cyr_entry(ts, mode@, bl) } else { conf_latin_entry(ts, mode@, bl) };
    let rows = confusable_pairs_rows();
    let mut i: usize = 0;
    assert(start =~= start + rules_over(rows@.take(0), f));
    while i < rows.len()
        invariant
            strictly_sorted(views(toks@)),
            strictly_sorted(views(blocked@)),
            ts == views(toks@),
            bl == views(blocked@),
            f == (if mirror { conf_cyr_entry(ts, mode@, bl) } else { conf_latin_entry(ts, mode@, bl) }),
            rows@ == confusable_pairs(),
            i <= rows.len(),
            rule_views(rw@) == start + rules_over(rows@.take(i as int), f),
        decreases rows.len() - i,
    {
        let e = rows[i];
        let ghost before = rule_views(rw@);
        let (src, dst) = if mirror { (e.1, e.0) } else { (e.0, e.1) };
        if has_str(blocked, src) {
            assert(before =~= before + Seq::<RuleView>::empty());
        } else {
            let t = case_to(mode, dst);
            push_if_target_present(rw, toks, src, t.as_str());
        }
        assert(rule_views(rw@) == before + f(e));
        proof {
            lemma_rules_over_step(rows@, f, i as int);
            lemma_add_assoc(start, rules_over(rows@.take(i as int), f), f(rows@[i as int]));
        }
        i += 1;
    }
    proof {
        lemma_rules_over_all(rows@, f);
    }
}

fn cyrillic_confusables(rw: &mut Vec<(String, String)>, toks: &Vec<String>, mode: &str, blocked: &Vec<String>)
    requires
        strictly_sorted(views(toks@)),
        strictly_sorted(views(blocked@)),
    ensures
        rule_views(final(rw)@) == rule_views(old(rw)@) + confusable_rules(views(toks@), mode@, views(blocked@)),
{
    let ghost ts = views(toks@);
    let ghost bl = views(blocked@);
    let ghost start = rule_views(rw@);
    confusable_rows(rw, toks, mode, blocked, false);
    let ghost mid1 = rule_views(rw@);
    if has_str(toks, "A") || has_str(toks, "a") {
        assert(mid1 =~= mid1 + Seq::<RuleView>::empty());
    } else {
        let ghost f = accented_confusable(ts, mode@, bl);
        let mut cp: u32 = 0xC0;
        assert(mid1 =~= mid1 + rules_over_codes(0xC0, 0xBF, f));
        while cp <= 0x24F
            invariant
                strictly_sorted(views(toks@)),
                strictly_sorted(views(blocked@)),
                ts == views(toks@),
                bl == views(blocked@),
                f == accented_confusable(ts, mode@, bl),
                0xC0 <= cp <= 0x250,
                rule_views(rw@) == mid1 + rules_over_codes(0xC0, cp - 1, f),
            decreases 0x250 - cp,
        {
            let ghost before = rule_views(rw@);
            let ch = char_of_code(cp);
            let s = string_of_char(ch);
            if has_str(blocked, s.as_str()) {
                assert(before =~= before + Seq::<RuleView>::empty());
            } else {
                let b = strip_marks_of(s.as_str());
                let bc = chars_of(b.as_str());
                proof {
                    lemma_utf8_len_one(b@);
                }
                if bc.len() == 1 && scalar_value(bc[0]) < 0x80 {
                    match confusable_core_of(bc[0]) {
                        Some(cy) => {
                            let t = case_to(mode, cy);
                            push_if_target_present(rw, toks, s.as_str(), t.as_str());
                        },
                        None => {
                            assert(before =~= before + Seq::<RuleView>::empty());
                        },
                    }
                } else {
                    assert(before =~= before + Seq::<RuleView>::empty());
                }
            }
            assert(rule_views(rw@) == before + f(cp as int));
            proof {
                lemma_add_assoc(mid1, rules_over_codes(0xC0, cp - 1, f), f(cp as int));
            }
            cp += 1;
        }
    }
    let ghost mid2 = rule_views(rw@);
    let t = case_to(mode, "Ч");
    push_if_target_present(rw, toks, "4", t.as_str());
    let ghost mid3 = rule_views(rw@);
    confusable_rows(rw, toks, mode, blocked, true);
    proof {
        let a = rules_over(confusable_pairs(), conf_latin_entry(ts, mode@, bl));
        let b = if ts.contains("A"@) || ts.contains("a"@) { Seq::<RuleView>::empty() }
            else { rules_over_codes(0xC0, 0x24F, accented_confusable(ts, mode@, bl)) };
        let c = target_rule(ts, "4"@, cased_as(mode@, "Ч"@));
        let d = rules_over(confusable_pairs(), conf_cyr_entry(ts, mode@, bl));
        assert(rule_views(rw@) =~= start + (a + b + c + d));
    }
}

/* ------------------------------ Latin accents ------------------------------ */

/// An accented letter goes to its base letter, in its own case when that is
/// a token, else in the other; not when it is a token or already rewritten.
pub open spec fn accent_entry(ts: Seq<Seq<char>>, bl: Seq<Seq<char>>)
    -> spec_fn((&'static str, &'static str, &'static str)) -> Seq<RuleView>
{
    |e: (&'static str, &'static str, &'static str)|
        if ts.contains(e.0@) || bl.contains(e.0@) {
            Seq::empty()
        } else if ts.contains(e.1@) {
            seq![(e.0@, e.1@)]
        } else if ts.contains(e.2@) {
            seq![(e.0@, e.2@)]
        } else {
            Seq::empty()
        }
}

/// Accented Latin letters fall back to their bases; `ß` and `ẞ` stand in for
/// each other.
pub open spec fn latin_accent_rules(ts: Seq<Seq<char>>, bl: Seq<Seq<char>>) -> Seq<RuleView> {
    rules_over(accent_upper_table(), accent_entry(ts, bl))
        + rules_over(accent_lower_table(), accent_entry(ts, bl))
        + target_rule(ts, "ß"@, "ẞ"@)
        + target_rule(ts, "ẞ"@, "ß"@)
}

fn accent_rows(rw: &mut Vec<(String, String)>, toks: &Vec<String>, blocked: &Vec<String>,
    rows: &[(&'static str, &'static str, &'static str)])
    requires
        strictly_sorted(views(toks@)),
        strictly_sorted(views(blocked@)),
    ensures
        rule_views(final(rw)@) == rule_views(old(rw)@) + rules_over(rows@, accent_entry(views(toks@), views(blocked@))),
{
    let ghost ts = views(toks@);
    let ghost bl = views(blocked@);
    let ghost start = rule_views(rw@);
    let ghost f = accent_entry(ts, bl);
    let mut i: usize = 0;
    assert(start =~= start + rules_over(rows@.take(0), f));
    while i < rows.len()
        invariant
            strictly_sorted(views(toks@)),
            strictly_sorted(views(blocked@)),
            ts == views(toks@),
            bl == views(blocked@),
            f == accent_entry(ts, bl),
            i <= rows.len(),
            rule_views(rw@) == start + rules_over(rows@.take(i as int), f),
        decreases rows.len() - i,
    {
        let e = rows[i];
        let ghost before = rule_views(rw@);
        if has_str(toks, e.0) || has_str(blocked, e.0) {
        } else if has_str(toks, e.1) {
            push_rule(rw, e.0, e.1);
        } else if has_str(toks, e.2) {
            push_rule(rw, e.0, e.2);
        }
        assert(rule_views(rw@) =~= before + f(e));
        proof {
            lemma_rules_over_step(rows@, f, i as int);
            lemma_add_assoc(start, rules_over(rows@.take(i as int), f), f(rows@[i as int]));
        }
        i += 1;
    }
    proof {
        lemma_rules_over_all(rows@, f);
    }
}

fn latin_accent_bridges(rw: &mut Vec<(String, String)>, toks: &Vec<String>, blocked: &Vec<String>)
    requires
        strictly_sorted(views(toks@)),
        strictly_sorted(views(blocked@)),
    ensures
        rule_views(final(rw)@) == rule_views(old(rw)@) + latin_accent_rules(views(toks@), views(blocked@)),
{
    let ghost start = rule_views(rw@);
    accent_rows(rw, toks, blocked, accent_upper_table_rows());
    accent_rows(rw, toks, blocked, accent_lower_table_rows());
    push_if_target_present(rw, toks, "ß", "ẞ");
    push_if_target_present(rw, toks, "ẞ", "ß");
    assert(rule_views(rw@) =~= start + latin_accent_rules(views(toks@), views(blocked@)));
}

/* ------------------------------ automatic case ------------------------------ */

/// Typographic ligatures, the dotted capital I and the combining dot above:
/// case pairs that touch them are never bridged.
pub open spec fn forbidden_scalar(c: char) -> bool {
    let v = c as int;
    (0xFB00 <= v <= 0xFB04) || v == 0x0130 || v == 0x0307
}

pub open spec fn has_forbidden(s: Seq<char>) -> bool {
    exists|i: int| 0 <= i < s.len() && forbidden_scalar(#[trigger] s[i])
}

/// The case bridge a token suggests: in `CapsOnly`, its small form to its
/// capital form when only the capital is a token; in `LowerOnly`, the
/// reverse.
pub open spec fn auto_candidate(ts: Seq<Seq<char>>, mode: Seq<char>, t: Seq<char>) -> Option<RuleView> {
    let u = caps_form(t, "ẞ"@);
    let l = scalar_lowercase(t);
    if u == l || has_forbidden(u) || has_forbidden(l) {
        None
    } else if mode == "CapsOnly"@ {
        if ts.contains(u) && !ts.contains(l) { Some((l, u)) } else { None }
    } else if mode == "LowerOnly"@ {
        if ts.contains(l) && !ts.contains(u) { Some((u, l)) } else { None }
    } else {
        None
    }
}

/// The case bridges of the first `k` tokens, each pair once.
pub open spec fn auto_case_upto(ts: Seq<Seq<char>>, mode: Seq<char>, k: int) -> Seq<RuleView>
    decreases k,
{
    if k <= 0 {
        Seq::empty()
    } else {
        let prev = auto_case_upto(ts, mode, k - 1);
        match auto_candidate(ts, mode, ts[k - 1]) {
            Some(p) => if prev.contains(p) { prev } else { prev.push(p) },
            None => prev,
        }
    }
}

/// The automatic case bridges, tokens taken in order.
pub open spec fn auto_case_rules(ts: Seq<Seq<char>>, mode: Seq<char>) -> Seq<RuleView> {
    auto_case_upto(ts, mode, ts.len() as int)
}

spec fn pair_views(v: Seq<(Vec<char>, Vec<char>)>) -> Seq<RuleView> {
    v.map_values(|p: (Vec<char>, Vec<char>)| (p.0@, p.1@))
}

fn any_forbidden(s: &Vec<char>) -> (r: bool)
    ensures
        r == has_forbidden(s@),
{
    let mut i: usize = 0;
    while i < s.len()
        invariant
            i <= s.len(),
            forall|k: int| 0 <= k < i ==> !forbidden_scalar(#[trigger] s@[k]),
        decreases s.len() - i,
    {
        let v = scalar_value(s[i]);
        if (0xFB00 <= v && v <= 0xFB04) || v == 0x0130 || v == 0x0307 {
            assert(forbidden_scalar(s@[i as int]));
            return true;
        }
        i += 1;
    }
    false
}

fn has_pair(v: &Vec<(Vec<char>, Vec<char>)>, a: &Vec<char>, b: &Vec<char>) -> (r: bool)
    ensures
        r == pair_views(v@).contains((a@, b@)),
{
    let mut i: usize = 0;
    while i < v.len()
        invariant
            i <= v.len(),
            forall|k: int| 0 <= k < i ==> #[trigger] pair_views(v@)[k] != (a@, b@),
        decreases v.len() - i,
    {
        if chars_equal(&v[i].0, a) && chars_equal(&v[i].1, b) {
            assert(pair_views(v@)[i as int] == (a@, b@));
            return true;
        }
        i += 1;
    }
    false
}

fn auto_case_bridges(rw: &mut Vec<(String, String)>, toks: &Vec<String>, mode: &str)
    requires
        strictly_sorted(views(toks@)),
    ensures
        rule_views(final(rw)@) == rule_views(old(rw)@) + auto_case_rules(views(toks@), mode@),
{
    let ghost ts = views(toks@);
    let ghost start = rule_views(rw@);
    let caps = str_equal(mode, "CapsOnly");
    let lower = str_equal(mode, "LowerOnly");
    let mut added: Vec<(Vec<char>, Vec<char>)> = Vec::new();
    let mut i: usize = 0;
    assert(start =~= start + auto_case_upto(ts, mode@, 0));
    assert(pair_views(added@) =~= auto_case_upto(ts, mode@, 0));
    while i < toks.len()
        invariant
            strictly_sorted(views(toks@)),
            ts == views(toks@),
            caps == (mode@ == "CapsOnly"@),
            lower == (mode@ == "LowerOnly"@),
            i <= toks.len(),
            pair_views(added@) == auto_case_upto(ts, mode@, i as int),
            rule_views(rw@) == start + auto_case_upto(ts, mode@, i as int),
        decreases toks.len() - i,
    {
        let ghost before = rule_views(rw@);
        let ghost prev = auto_case_upto(ts, mode@, i as int);
        let t = toks[i].as_str();
        assert(ts[i as int] == t@);
        let u = to_upper(t, "ẞ");
        let l = lower_scalars(t);
        let uc = chars_of(u.as_str());
        let lc = chars_of(l.as_str());
        let mut cand: Option<(Vec<char>, Vec<char>)> = None;
        if !chars_equal(&uc, &lc) && !any_forbidden(&uc) && !any_forbidden(&lc) {
            if caps {
                if has_str(toks, u.as_str()) && !has_str(toks, l.as_str()) {
                    cand = Some((lc, uc));
                }
            } else if lower {
                if has_str(toks, l.as_str()) && !has_str(toks, u.as_str()) {
                    cand = Some((uc, lc));
                }
            }
        }
        assert(cand is Some ==> auto_candidate(ts, mode@, ts[i as int]) == Some((cand->Some_0.0@, cand->Some_0.1@)));
        assert(cand is None ==> auto_candidate(ts, mode@, ts[i as int]) is None);
        match cand {
            Some(p) => {
                if !has_pair(&added, &p.0, &p.1) {
                    let from = string_from_chars(&p.0);
                    let to = string_from_chars(&p.1);
                    let ghost pv = (p.0@, p.1@);
                    let ghost av = pair_views(added@);
                    added.push(p);
                    assert(pair_views(added@) =~= av.push(pv));
                    push_rule(rw, from.as_str(), to.as_str());
                    assert(start + prev.push(pv) =~= (start + prev).push(pv));
                }
            },
            None => {},
        }
        i += 1;
    }
}

/* ------------------------------ combining marks ------------------------------ */

/// Whether a scalar is alphabetic (`char::is_alphabetic`, the Unicode
/// `Alphabetic` property).
pub uninterp spec fn alphabetic_scalar(c: char) -> bool;

/// `char::is_alphabetic`.
#[verifier::external_body]
fn is_alphabetic_char(c: char) -> (r: bool)
    ensures
        r == alphabetic_scalar(c),
{
    c.is_alphabetic()
}

/// A one-scalar alphabetic token that is no combining mark.
pub open spec fn is_base_token(t: Seq<char>) -> bool {
    t.len() == 1 && alphabetic_scalar(t[0]) && !is_combining_mark(t[0])
}

/// A base letter followed by a combining mark goes to the precomposed letter
/// when that is a token, else to the base letter.
pub open spec fn mark_entry(ts: Seq<Seq<char>>, b: char) -> spec_fn(char) -> Seq<RuleView> {
    |m: char| {
        let lhs = seq![b, m];
        if ts.contains(lhs) {
            Seq::empty()
        } else {
            let c = nfc_form(lhs);
            if c != lhs && ts.contains(c) {
                seq![(lhs, c)]
            } else if ts.contains(seq![b]) {
                seq![(lhs, seq![b])]
            } else {
                Seq::empty()
            }
        }
    }
}

/// The mark rules of one token, if it is a base letter.
pub open spec fn base_entry(ts: Seq<Seq<char>>) -> spec_fn(Seq<char>) -> Seq<RuleView> {
    |t: Seq<char>| if is_base_token(t) { rules_over(common_marks(), mark_entry(ts, t[0])) } else { Seq::empty() }
}

/// Rules that fold a kept base letter followed by a common combining mark.
pub open spec fn combining_rules(ts: Seq<Seq<char>>) -> Seq<RuleView> {
    rules_over(ts, base_entry(ts))
}

fn mark_rules_for(rw: &mut Vec<(String, String)>, toks: &Vec<String>, b: char)
    requires
        strictly_sorted(views(toks@)),
    ensures
        rule_views(final(rw)@) == rule_views(old(rw)@) + rules_over(common_marks(), mark_entry(views(toks@), b)),
{
    let ghost ts = views(toks@);
    let ghost start = rule_views(rw@);
    let ghost f = mark_entry(ts, b);
    let marks = common_marks_rows();
    let base = string_of_char(b);
    let mut i: usize = 0;
    assert(start =~= start + rules_over(marks@.take(0), f));
    while i < marks.len()
        invariant
            strictly_sorted(views(toks@)),
            ts == views(toks@),
            f == mark_entry(ts, b),
            base@ == seq![b],
            i <= marks.len(),
            rule_views(rw@) == start + rules_over(marks@.take(i as int), f),
        decreases marks.len() - i,
    {
        let m = marks[i];
        let ghost before = rule_views(rw@);
        let mut lv: Vec<char> = Vec::new();
        lv.push(b);
        lv.push(m);
        assert(lv@ =~= seq![b, m]);
        let lhs = string_from_chars(&lv);
        if has_token(toks, &lv) {
        } else {
            let c = nfc(lhs.as_str());
            if !str_equal(c.as_str(), lhs.as_str()) && has_str(toks, c.as_str()) {
                push_rule(rw, lhs.as_str(), c.as_str());
            } else if has_str(toks, base.as_str()) {
                push_rule(rw, lhs.as_str(), base.as_str());
            }
        }
        assert(rule_views(rw@) =~= before + f(m));
        proof {
            lemma_rules_over_step(marks@, f, i as int);
            lemma_add_assoc(start, rules_over(marks@.take(i as int), f), f(marks@[i as int]));
        }
        i += 1;
    }
    proof {
        lemma_rules_over_all(marks@, f);
    }
}

fn append_combining_strip_rules(rw: &mut Vec<(String, String)>, toks: &Vec<String>)
    requires
        strictly_sorted(views(toks@)),
    ensures
        rule_views(final(rw)@) == rule_views(old(rw)@) + combining_rules(views(toks@)),
{
    let ghost ts = views(toks@);
    let ghost start = rule_views(rw@);
    let ghost f = base_entry(ts);
    let mut i: usize = 0;
    assert(start =~= start + rules_over(ts.take(0), f));
    while i < toks.len()
        invariant
            strictly_sorted(views(toks@)),
            ts == views(toks@),
            f == base_entry(ts),
            i <= toks.len(),
            rule_views(rw@) == start + rules_over(ts.take(i as int), f),
        decreases toks.len() - i,
    {
        let ghost before = rule_views(rw@);
        let cs = chars_of(toks[i].as_str());
        assert(cs@ == ts[i as int]);
        if cs.len() == 1 && is_alphabetic_char(cs[0]) && !combining_mark(cs[0]) {
            mark_rules_for(rw, toks, cs[0]);
        } else {
            assert(before =~= before + Seq::<RuleView>::empty());
        }
        assert(rule_views(rw@) == before + f(ts[i as int]));
        proof {
            lemma_rules_over_step(ts, f, i as int);
            lemma_add_assoc(start, rules_over(ts.take(i as int), f), f(ts[i as int]));
        }
        i += 1;
    }
    proof {
        lemma_rules_over_all(ts, f);
    }
}

/* ----------------------------- diacritics pack ----------------------------- */

/// Whether a scalar is uppercase (`char::is_uppercase`, the Unicode
/// `Uppercase` property).
pub uninterp spec fn uppercase_scalar(c: char) -> bool;

/// `char::is_uppercase`.
#[verifier::external_body]
fn is_uppercase_char(c: char) -> (r: bool)
    ensures
        r == uppercase_scalar(c),
{
    c.is_uppercase()
}

/// A letter with marks goes to its stripped base, in the letter's own case
/// first; not when it, its small or its capital form is a token, or when an
/// earlier rule already rewrites it.
pub open spec fn diacritic_entry(ts: Seq<Seq<char>>, bl: Seq<Seq<char>>) -> spec_fn(int) -> Seq<RuleView> {
    |cp: int| {
        let ch = cp as char;
        let lhs = seq![ch];
        let base = strip_marks(lhs);
        if base == lhs || base.len() == 0 || ts.contains(lhs) || ts.contains(scalar_lowercase(lhs))
            || ts.contains(caps_form(lhs, "ẞ"@)) || bl.contains(lhs) {
            Seq::empty()
        } else {
            let up = caps_form(base, "ẞ"@);
            let lo = scalar_lowercase(base);
            if uppercase_scalar(ch) {
                if ts.contains(up) { seq![(lhs, up)] } else if ts.contains(lo) { seq![(lhs, lo)] } else { Seq::empty() }
            } else {
                if ts.contains(lo) { seq![(lhs, lo)] } else if ts.contains(up) { seq![(lhs, up)] } else { Seq::empty() }
            }
        }
    }
}

/// Diacritic stripping over Latin-1, Latin Extended-A/B, Latin Extended
/// Additional, Cyrillic and Cyrillic Supplement.
pub open spec fn diacritic_rules(ts: Seq<Seq<char>>, bl: Seq<Seq<char>>) -> Seq<RuleView> {
    rules_over_codes(0xC0, 0x24F, diacritic_entry(ts, bl))
        + rules_over_codes(0x1E00, 0x1EFF, diacritic_entry(ts, bl))
        + rules_over_codes(0x400, 0x52F, diacritic_entry(ts, bl))
}

fn diacritic_range(rw: &mut Vec<(String, String)>, toks: &Vec<String>, blocked: &Vec<String>, lo: u32, hi: u32)
    requires
        strictly_sorted(views(toks@)),
        strictly_sorted(views(blocked@)),
        lo <= hi < 0xD800,
    ensures
        rule_views(final(rw)@) == rule_views(old(rw)@)
            + rules_over_codes(lo as int, hi as int, diacritic_entry(views(toks@), views(blocked@))),
{
    let ghost ts = views(toks@);
    let ghost bl = views(blocked@);
    let ghost start = rule_views(rw@);
    let ghost f = diacritic_entry(ts, bl);
    let mut cp: u32 = lo;
    assert(start =~= start + rules_over_codes(lo as int, lo - 1, f));
    while cp <= hi
        invariant
            strictly_sorted(views(toks@)),
            strictly_sorted(views(blocked@)),
            ts == views(toks@),
            bl == views(blocked@),
            f == diacritic_entry(ts, bl),
            lo <= hi < 0xD800,
            lo <= cp <= hi + 1,
            rule_views(rw@) == start + rules_over_codes(lo as int, cp - 1, f),
        decreases hi + 1 - cp,
    {
        let ghost before = rule_views(rw@);
        let ch = char_of_code(cp);
        let lhs = string_of_char(ch);
        let base = strip_marks_of(lhs.as_str());
        let skip = str_equal(base.as_str(), lhs.as_str()) || chars_of(base.as_str()).len() == 0
            || has_str(toks, lhs.as_str());
        let skip = skip || {
            let lo_l = lower_scalars(lhs.as_str());
            let up_l = to_upper(lhs.as_str(), "ẞ");
            has_str(toks, lo_l.as_str()) || has_str(toks, up_l.as_str())
        };
        let skip = skip || has_str(blocked, lhs.as_str());
        if !skip {
            let up = to_upper(base.as_str(), "ẞ");
            let low = lower_scalars(base.as_str());
            if is_uppercase_char(ch) {
                if has_str(toks, up.as_str()) {
                    push_rule(rw, lhs.as_str(), up.as_str());
                } else if has_str(toks, low.as_str()) {
                    push_rule(rw, lhs.as_str(), low.as_str());
                }
            } else {
                if has_str(toks, low.as_str()) {
                    push_rule(rw, lhs.as_str(), low.as_str());
                } else if has_str(toks, up.as_str()) {
                    push_rule(rw, lhs.as_str(), up.as_str());
                }
            }
        }
        assert(rule_views(rw@) =~= before + f(cp as int));
        proof {
            lemma_add_assoc(start, rules_over_codes(lo as int, cp - 1, f), f(cp as int));
        }
        cp += 1;
    }
}

fn append_auto_diacritic_pack(rw: &mut Vec<(String, String)>, toks: &Vec<String>, blocked: &Vec<String>)
    requires
        strictly_sorted(views(toks@)),
        strictly_sorted(views(blocked@)),
    ensures
        rule_views(final(rw)@) == rule_views(old(rw)@) + diacritic_rules(views(toks@), views(blocked@)),
{
    let ghost start = rule_views(rw@);
    diacritic_range(rw, toks, blocked, 0xC0, 0x24F);
    diacritic_range(rw, toks, blocked, 0x1E00, 0x1EFF);
    diacritic_range(rw, toks, blocked, 0x400, 0x52F);
    assert(rule_views(rw@) =~= start + diacritic_rules(views(toks@), views(blocked@)));
}

/* --------------------------------- bridges --------------------------------- */

/// The bridges derived from the tokens, before ordering: case crosswalks,
/// fallbacks, the Greek rules, the language-specific packs when `lsb`
/// holds, and the automatic case bridges; `bl` holds the sources that
/// earlier rules rewrite.
pub open spec fn bridge_rules(ts: Seq<Seq<char>>, lsb: bool, mode: Seq<char>, bl: Seq<Seq<char>>) -> Seq<RuleView> {
    rules_over(latin_case_packages(), package_pairs_entry(ts))
        + to_any_rules(ts)
        + rules_over(script_case_packages(), package_pairs_entry(ts))
        + greek_rules(ts, lsb)
        + (if lsb {
            case_pair_rules(ts, Package::GeorgianMtavruli, Package::GeorgianMkhedruli)
                + hebrew_rules(ts)
                + kana_rules(ts)
                + cyrillic_subset_rules(ts, mode)
                + confusable_rules(ts, mode, bl)
                + latin_accent_rules(ts, bl)
        } else {
            Seq::empty()
        })
        + auto_case_rules(ts, mode)
}

/// A rule of the Hebrew or kana packs is a bridge when the language-specific
/// packs are on.
proof fn lemma_lsb_rules_in_bridges(ts: Seq<Seq<char>>, mode: Seq<char>, bl: Seq<Seq<char>>, x: RuleView)
    requires
        hebrew_rules(ts).contains(x) || kana_rules(ts).contains(x),
    ensures
        bridge_rules(ts, true, mode, bl).contains(x),
{
    let g = case_pair_rules(ts, Package::GeorgianMtavruli, Package::GeorgianMkhedruli);
    let h = hebrew_rules(ts);
    let k = kana_rules(ts);
    let cy = cyrillic_subset_rules(ts, mode);
    let cf = confusable_rules(ts, mode, bl);
    let la = latin_accent_rules(ts, bl);
    lemma_in_concat(g, h, x);
    lemma_in_concat(g + h, k, x);
    lemma_in_concat(g + h + k, cy, x);
    lemma_in_concat(g + h + k + cy, cf, x);
    lemma_in_concat(g + h + k + cy + cf, la, x);
    let p1 = rules_over(latin_case_packages(), package_pairs_entry(ts));
    let p2 = to_any_rules(ts);
    let p3 = rules_over(script_case_packages(), package_pairs_entry(ts));
    let p4 = greek_rules(ts, true);
    let p5 = g + h + k + cy + cf + la;
    let p6 = auto_case_rules(ts, mode);
    lemma_in_concat(p1 + p2 + p3 + p4, p5, x);
    lemma_in_concat(p1 + p2 + p3 + p4 + p5, p6, x);
    assert(bridge_rules(ts, true, mode, bl) == p1 + p2 + p3 + p4 + p5 + p6);
}

/// Row `k` of the Hebrew table gives a bridge when its base letter is a
/// token and its final letter is not.
proof fn lemma_hebrew_row(ts: Seq<Seq<char>>, mode: Seq<char>, bl: Seq<Seq<char>>, k: int)
    requires
        0 <= k < hebrew_finals().len(),
    ensures
        ts.contains(hebrew_finals()[k].1@) && !ts.contains(hebrew_finals()[k].0@)
            ==> bridge_rules(ts, true, mode, bl).contains((hebrew_finals()[k].0@, hebrew_finals()[k].1@)),
{
    let t = hebrew_finals();
    let f = target_entry(ts);
    if ts.contains(t[k].1@) && !ts.contains(t[k].0@) {
        let x = (t[k].0@, t[k].1@);
        assert(f(t[k]) == seq![x]);
        assert(f(t[k])[0] == x);
        lemma_rules_over_has(t, f, k, x);
        lemma_lsb_rules_in_bridges(ts, mode, bl, x);
    }
}

/// With the language-specific packs on, a Hebrew final letter that is not a
/// token falls back to its base letter when that one is: ך → כ, ם → מ,
/// ן → נ, ף → פ, ץ → צ.
pub proof fn law_hebrew_finals_fall_back(ts: Seq<Seq<char>>, mode: Seq<char>, bl: Seq<Seq<char>>)
    ensures
        ts.contains("כ"@) && !ts.contains("ך"@) ==> bridge_rules(ts, true, mode, bl).contains(("ך"@, "כ"@)),
        ts.contains("מ"@) && !ts.contains("ם"@) ==> bridge_rules(ts, true, mode, bl).contains(("ם"@, "מ"@)),
        ts.contains("נ"@) && !ts.contains("ן"@) ==> bridge_rules(ts, true, mode, bl).contains(("ן"@, "נ"@)),
        ts.contains("פ"@) && !ts.contains("ף"@) ==> bridge_rules(ts, true, mode, bl).contains(("ף"@, "פ"@)),
        ts.contains("צ"@) && !ts.contains("ץ"@) ==> bridge_rules(ts, true, mode, bl).contains(("ץ"@, "צ"@)),
{
    let t = hebrew_finals();
    assert(t[0] == ("ך", "כ"));
    assert(t[1] == ("ם", "מ"));
    assert(t[2] == ("ן", "נ"));
    assert(t[3] == ("ף", "פ"));
    assert(t[4] == ("ץ", "צ"));
    lemma_hebrew_row(ts, mode, bl, 0);
    lemma_hebrew_row(ts, mode, bl, 1);
    lemma_hebrew_row(ts, mode, bl, 2);
    lemma_hebrew_row(ts, mode, bl, 3);
    lemma_hebrew_row(ts, mode, bl, 4);
}

/// The one-scalar string `d` code points from the first scalar of `k`.
pub open spec fn shifted_kana(k: Seq<char>, d: int) -> Seq<char> {
    seq![((k[0] as int) + d) as char]
}

/// With the language-specific packs on, katakana tokens and no hiragana
/// token, a hiragana of the package whose first scalar lies in
/// U+3041..=U+3096 falls back to the katakana 0x60 code points above it,
/// when that one is a token.
pub proof fn law_hiragana_falls_back_to_katakana(ts: Seq<Seq<char>>, mode: Seq<char>, bl: Seq<Seq<char>>, i: int)
    requires
        0 <= i < package_tokens(Package::Hiragana).len(),
    ensures
        ({
            let h = package_tokens(Package::Hiragana)[i]@;
            in_package(ts, Package::Katakana) && !in_package(ts, Package::Hiragana)
                && h.len() > 0 && 0x3041 <= h[0] as int <= 0x3096 && ts.contains(shifted_kana(h, 0x60))
                ==> bridge_rules(ts, true, mode, bl).contains((h, shifted_kana(h, 0x60)))
        }),
{
    let t = package_tokens(Package::Hiragana);
    let h = t[i]@;
    if in_package(ts, Package::Katakana) && !in_package(ts, Package::Hiragana)
        && h.len() > 0 && 0x3041 <= h[0] as int <= 0x3096 && ts.contains(shifted_kana(h, 0x60)) {
        assert(!ts.contains(h));
        let f = kana_entry(ts, 0x3041, 0x3096, 0x60);
        let x = (h, shifted_kana(h, 0x60));
        assert(kana_rules(ts) == rules_over(t, f));
        assert(f(t[i]) == seq![x]);
        assert(f(t[i])[0] == x);
        lemma_rules_over_has(t, f, i, x);
        lemma_lsb_rules_in_bridges(ts, mode, bl, x);
    }
}

/// With the language-specific packs on, hiragana tokens and no katakana
/// token, a katakana of the package whose first scalar lies in
/// U+30A1..=U+30F6 falls back to the hiragana 0x60 code points below it,
/// when that one is a token.
pub proof fn law_katakana_falls_back_to_hiragana(ts: Seq<Seq<char>>, mode: Seq<char>, bl: Seq<Seq<char>>, i: int)
    requires
        0 <= i < package_tokens(Package::Katakana).len(),
    ensures
        ({
            let k = package_tokens(Package::Katakana)[i]@;
            in_package(ts, Package::Hiragana) && !in_package(ts, Package::Katakana)
                && k.len() > 0 && 0x30A1 <= k[0] as int <= 0x30F6 && ts.contains(shifted_kana(k, -0x60))
                ==> bridge_rules(ts, true, mode, bl).contains((k, shifted_kana(k, -0x60)))
        }),
{
    let t = package_tokens(Package::Katakana);
    let k = t[i]@;
    if in_package(ts, Package::Hiragana) && !in_package(ts, Package::Katakana)
        && k.len() > 0 && 0x30A1 <= k[0] as int <= 0x30F6 && ts.contains(shifted_kana(k, -0x60)) {
        assert(!ts.contains(k));
        let f = kana_entry(ts, 0x30A1, 0x30F6, -0x60);
        let x = (k, shifted_kana(k, -0x60));
        assert(kana_rules(ts) == rules_over(t, f));
        assert(f(t[i]) == seq![x]);
        assert(f(t[i])[0] == x);
        lemma_rules_over_has(t, f, i, x);
        lemma_lsb_rules_in_bridges(ts, mode, bl, x);
    }
}

/// The bridges of an alphabet whose tokens and blocked sources come as
/// increasing lists, ordered (longest left-hand side first, adjacent
/// repeats dropped).
pub(crate) fn bridges_for_sorted_tokens(toks: &Vec<String>, lsb: bool, mode: &str, blocked: &Vec<String>)
    -> (r: Vec<(String, String)>)
    requires
        strictly_sorted(views(toks@)),
        strictly_sorted(views(blocked@)),
    ensures
        rule_views(r@) == ordered(bridge_rules(views(toks@), lsb, mode@, views(blocked@))),
        ordered_rules_of(rule_views(r@), bridge_rules(views(toks@), lsb, mode@, views(blocked@))),
{
    let ghost ts = views(toks@);
    let ghost bl = views(blocked@);
    let mut rw: Vec<(String, String)> = Vec::new();
    push_package_pairs(&mut rw, toks, latin_case_packages_rows());
    let ghost a = rule_views(rw@);
    push_to_any_rules(&mut rw, toks);
    let ghost b = rule_views(rw@);
    push_package_pairs(&mut rw, toks, script_case_packages_rows());
    let ghost c = rule_views(rw@);
    greek_bridges(&mut rw, toks, lsb);
    let ghost d = rule_views(rw@);
    if lsb {
        push_case_pairs(&mut rw, toks, Package::GeorgianMtavruli, Package::GeorgianMkhedruli);
        let ghost e1 = rule_views(rw@);
        hebrew_final_bridges(&mut rw, toks);
        let ghost e2 = rule_views(rw@);
        kana_bridges(&mut rw, toks);
        let ghost e3 = rule_views(rw@);
        cyrillic_subset_bridges(&mut rw, toks, mode);
        let ghost e4 = rule_views(rw@);
        cyrillic_confusables(&mut rw, toks, mode, blocked);
        let ghost e5 = rule_views(rw@);
        latin_accent_bridges(&mut rw, toks, blocked);
        proof {
            let g = case_pair_rules(ts, Package::GeorgianMtavruli, Package::GeorgianMkhedruli);
            let h = hebrew_rules(ts);
            let k = kana_rules(ts);
            let cy = cyrillic_subset_rules(ts, mode@);
            let cf = confusable_rules(ts, mode@, bl);
            let la = latin_accent_rules(ts, bl);
            assert(rule_views(rw@) =~= d + (g + h + k + cy + cf + la));
        }
    } else {
        assert(d =~= d + Seq::<RuleView>::empty());
    }
    let ghost e = rule_views(rw@);
    auto_case_bridges(&mut rw, toks, mode);
    proof {
        let p1 = rules_over(latin_case_packages(), package_pairs_entry(ts));
        let p2 = to_any_rules(ts);
        let p3 = rules_over(script_case_packages(), package_pairs_entry(ts));
        let p4 = greek_rules(ts, lsb);
        let p5 = if lsb {
            case_pair_rules(ts, Package::GeorgianMtavruli, Package::GeorgianMkhedruli)
                + hebrew_rules(ts)
                + kana_rules(ts)
                + cyrillic_subset_rules(ts, mode@)
                + confusable_rules(ts, mode@, bl)
                + latin_accent_rules(ts, bl)
        } else {
            Seq::<RuleView>::empty()
        };
        let p6 = auto_case_rules(ts, mode@);
        assert(a =~= p1);
        assert(rule_views(rw@) =~= p1 + p2 + p3 + p4 + p5 + p6);
    }
    order_rules(&rw)
}

/// The bridges of an alphabet, for any list of tokens and of blocked
/// sources (each taken as the set of its elements), ordered: longest
/// left-hand side first, then by left-hand side, adjacent repeats dropped.
pub fn build_bridges_for_tokens(toks: &Vec<String>, lsb: bool, mode: &str, blocked: &Vec<String>)
    -> (r: Vec<(String, String)>)
    ensures
        rule_views(r@) == ordered(bridge_rules(lex_order(views(toks@)), lsb, mode@, lex_order(views(blocked@)))),
        ordered_rules_of(rule_views(r@), bridge_rules(lex_order(views(toks@)), lsb, mode@, lex_order(views(blocked@)))),
        rules_sorted(rule_views(r@)),
        forall|i: int| 0 <= i < r@.len() - 1 ==> #[trigger] rule_views(r@)[i] != rule_views(r@)[i + 1],
{
    let ts = token_order(toks);
    let bl = token_order(blocked);
    let r = bridges_for_sorted_tokens(&ts, lsb, mode, &bl);
    proof {
        let s = bridge_rules(views(ts@), lsb, mode@, views(bl@));
        lemma_ordered_no_adjacent_repeats(rule_views(r@), s);
    }
    r
}

/* ------------------------------- all rules ------------------------------- */

/// The left-hand sides of a rule list.
pub open spec fn lhs_list(rs: Seq<RuleView>) -> Seq<Seq<char>> {
    rs.map_values(|r: RuleView| r.0)
}

/// The rules whose left-hand side is not a token.
pub open spec fn drop_kept(rs: Seq<RuleView>, ts: Seq<Seq<char>>) -> Seq<RuleView>
    decreases rs.len(),
{
    if rs.len() == 0 {
        rs
    } else if ts.contains(rs.last().0) {
        drop_kept(rs.drop_last(), ts)
    } else {
        drop_kept(rs.drop_last(), ts).push(rs.last())
    }
}

/// The rules that follow from the options alone: sign spellings (when
/// asked for), `ß → ẞ` for capitals-only alphabets that keep ligatures and
/// write `ẞ`, and the ligature rules.
pub open spec fn informative_rules(ts: Seq<Seq<char>>, o: Options) -> Seq<RuleView> {
    (if o.signage_translits {
        signage_rules(ts, in_package(ts, Package::LatinAsciiUpper), in_package(ts, Package::LatinAsciiLower))
    } else {
        Seq::empty()
    })
        + when(o.case_mode@ == "CapsOnly"@ && o.keep_ligatures && o.german_sharp_s_uppercase@ == "ẞ"@, ("ß"@, "ẞ"@))
        + ligature_rules(ts, o.keep_ligatures, o.rewrite_with_typographic_ligatures)
}

/// Every rewrite rule of an alphabet whose tokens, in increasing order, are
/// `ts`: the option-driven rules, then the ordered bridges (kept from
/// rewriting what the former already rewrite), then, when diacritics are
/// dropped, the combining-mark and diacritic rules (kept from rewriting
/// what any earlier rule rewrites); rules rewriting a token are dropped and
/// the rest ordered.
pub open spec fn alphabet_rules(ts: Seq<Seq<char>>, o: Options) -> Seq<RuleView> {
    let a = informative_rules(ts, o);
    let b = ordered(bridge_rules(ts, o.language_specific_bridges, o.case_mode@, lex_order(lhs_list(a))));
    let cd = if o.drop_diacritics {
        combining_rules(ts) + diacritic_rules(ts, lex_order(lhs_list(a + b)))
    } else {
        Seq::empty()
    };
    ordered(drop_kept(a + b + cd, ts))
}

/// The left-hand sides of the rules, each once, in increasing order.
fn sources_of(rw: &Vec<(String, String)>) -> (r: Vec<String>)
    ensures
        views(r@) == lex_order(lhs_list(rule_views(rw@))),
        strictly_sorted(views(r@)),
{
    let mut v: Vec<String> = Vec::new();
    let mut i: usize = 0;
    while i < rw.len()
        invariant
            i <= rw.len(),
            views(v@) == lhs_list(rule_views(rw@)).take(i as int),
        decreases rw.len() - i,
    {
        let ghost vv = views(v@);
        let x = rw[i].0.clone();
        assert(x@ == rule_views(rw@)[i as int].0);
        v.push(x);
        assert(views(v@) =~= vv.push(x@));
        assert(lhs_list(rule_views(rw@)).take(i + 1) =~= lhs_list(rule_views(rw@)).take(i as int).push(x@));
        i += 1;
    }
    assert(lhs_list(rule_views(rw@)).take(i as int) =~= lhs_list(rule_views(rw@)));
    token_order(&v)
}

/// The rules whose left-hand side is not a token.
fn drop_kept_rules(rw: &Vec<(String, String)>, toks: &Vec<String>) -> (r: Vec<(String, String)>)
    requires
        strictly_sorted(views(toks@)),
    ensures
        rule_views(r@) == drop_kept(rule_views(rw@), views(toks@)),
{
    let ghost s = rule_views(rw@);
    let mut out: Vec<(String, String)> = Vec::new();
    let mut i: usize = 0;
    assert(rule_views(out@) =~= drop_kept(s.take(0), views(toks@)));
    while i < rw.len()
        invariant
            strictly_sorted(views(toks@)),
            s == rule_views(rw@),
            i <= rw.len(),
            rule_views(out@) == drop_kept(s.take(i as int), views(toks@)),
        decreases rw.len() - i,
    {
        assert(s.take(i + 1).drop_last() =~= s.take(i as int));
        if !has_str(toks, rw[i].0.as_str()) {
            let ghost ov = rule_views(out@);
            out.push((rw[i].0.clone(), rw[i].1.clone()));
            assert(rule_views(out@) =~= ov.push(s[i as int]));
        }
        i += 1;
    }
    assert(s.take(i as int) =~= s);
    out
}

/// No rule of `drop_kept` rewrites a token.
pub proof fn lemma_drop_kept_spares(rs: Seq<RuleView>, ts: Seq<Seq<char>>)
    ensures
        forall|j: int| 0 <= j < drop_kept(rs, ts).len() ==> !ts.contains(#[trigger] drop_kept(rs, ts)[j].0),
    decreases rs.len(),
{
    if rs.len() > 0 {
        lemma_drop_kept_spares(rs.drop_last(), ts);
        let d = drop_kept(rs.drop_last(), ts);
        if !ts.contains(rs.last().0) {
            assert forall|j: int| 0 <= j < d.push(rs.last()).len() implies !ts.contains(#[trigger] d.push(rs.last())[j].0) by {
                if j < d.len() {
                    assert(d.push(rs.last())[j] == d[j]);
                }
            }
        }
    }
}

/// A rule whose left-hand side is not a token survives `drop_kept`.
pub proof fn lemma_drop_kept_keeps(rs: Seq<RuleView>, ts: Seq<Seq<char>>, x: RuleView)
    requires
        rs.contains(x),
        !ts.contains(x.0),
    ensures
        drop_kept(rs, ts).contains(x),
    decreases rs.len(),
{
    let d = drop_kept(rs.drop_last(), ts);
    if rs.last() == x {
        assert(drop_kept(rs, ts) == d.push(x));
        assert(d.push(x)[d.len() as int] == x);
    } else {
        let i = choose|i: int| 0 <= i < rs.len() && rs[i] == x;
        assert(rs.drop_last()[i] == x);
        lemma_drop_kept_keeps(rs.drop_last(), ts, x);
        let j = choose|j: int| 0 <= j < d.len() && d[j] == x;
        if !ts.contains(rs.last().0) {
            assert(d.push(rs.last())[j] == x);
        }
    }
}

/// A bridge whose left-hand side is not a token is among the final rules:
/// the ordered bridges keep it, and so do `drop_kept` and the last ordering.
proof fn lemma_bridge_survives(a: Seq<RuleView>, b: Seq<RuleView>, tail: Seq<RuleView>, bs: Seq<RuleView>,
    ts: Seq<Seq<char>>, out: Seq<RuleView>, x: RuleView)
    requires
        ordered_rules_of(b, bs),
        bs.contains(x),
        !ts.contains(x.0),
        ordered_rules_of(out, drop_kept(a + b + tail, ts)),
    ensures
        out.contains(x),
{
    crate::rule_order::lemma_ordered_keeps(b, bs, x);
    lemma_in_concat(a, b, x);
    lemma_in_concat(a + b, tail, x);
    lemma_drop_kept_keeps(a + b + tail, ts, x);
    crate::rule_order::lemma_ordered_keeps(out, drop_kept(a + b + tail, ts), x);
}

/// Two token lists with the same elements meet the same packages.
proof fn lemma_in_package_same(t1: Seq<Seq<char>>, t2: Seq<Seq<char>>, p: Package)
    requires
        forall|x: Seq<char>| t1.contains(x) <==> t2.contains(x),
    ensures
        in_package(t1, p) == in_package(t2, p),
{
    if in_package(t1, p) {
        let i = choose|i: int| 0 <= i < package_tokens(p).len() && t1.contains(#[trigger] package_tokens(p)[i]@);
        assert(t2.contains(package_tokens(p)[i]@));
    }
    if in_package(t2, p) {
        let i = choose|i: int| 0 <= i < package_tokens(p).len() && t2.contains(#[trigger] package_tokens(p)[i]@);
        assert(t1.contains(package_tokens(p)[i]@));
    }
}

/// The Hebrew and kana fallbacks that the bridges owe survive into the
/// final rules.
proof fn lemma_fallbacks_kept(tv: Seq<Seq<char>>, ts: Seq<Seq<char>>, o: Options, bl: Seq<Seq<char>>,
    a: Seq<RuleView>, b: Seq<RuleView>, tail: Seq<RuleView>, outv: Seq<RuleView>)
    requires
        lex_sorted_of(ts, tv),
        ordered_rules_of(b, bridge_rules(ts, o.language_specific_bridges, o.case_mode@, bl)),
        ordered_rules_of(outv, drop_kept(a + b + tail, ts)),
    ensures
        o.language_specific_bridges && tv.contains("כ"@) && !tv.contains("ך"@) ==> outv.contains(("ך"@, "כ"@)),
        o.language_specific_bridges && tv.contains("מ"@) && !tv.contains("ם"@) ==> outv.contains(("ם"@, "מ"@)),
        o.language_specific_bridges && tv.contains("נ"@) && !tv.contains("ן"@) ==> outv.contains(("ן"@, "נ"@)),
        o.language_specific_bridges && tv.contains("פ"@) && !tv.contains("ף"@) ==> outv.contains(("ף"@, "פ"@)),
        o.language_specific_bridges && tv.contains("צ"@) && !tv.contains("ץ"@) ==> outv.contains(("ץ"@, "צ"@)),
        forall|i: int| #![trigger package_tokens(Package::Hiragana)[i]]
            0 <= i < package_tokens(Package::Hiragana).len() ==> ({
                let h = package_tokens(Package::Hiragana)[i]@;
                o.language_specific_bridges && in_package(tv, Package::Katakana)
                    && !in_package(tv, Package::Hiragana) && h.len() > 0
                    && 0x3041 <= h[0] as int <= 0x3096 && tv.contains(shifted_kana(h, 0x60))
                    ==> outv.contains((h, shifted_kana(h, 0x60)))
            }),
        forall|i: int| #![trigger package_tokens(Package::Katakana)[i]]
            0 <= i < package_tokens(Package::Katakana).len() ==> ({
                let k = package_tokens(Package::Katakana)[i]@;
                o.language_specific_bridges && in_package(tv, Package::Hiragana)
                    && !in_package(tv, Package::Katakana) && k.len() > 0
                    && 0x30A1 <= k[0] as int <= 0x30F6 && tv.contains(shifted_kana(k, -0x60))
                    ==> outv.contains((k, shifted_kana(k, -0x60)))
            }),
{
    let bs = bridge_rules(ts, o.language_specific_bridges, o.case_mode@, bl);
    if o.language_specific_bridges {
        law_hebrew_finals_fall_back(ts, o.case_mode@, bl);
        if tv.contains("כ"@) && !tv.contains("ך"@) {
            assert(ts.contains("כ"@) && !ts.contains("ך"@));
            lemma_bridge_survives(a, b, tail, bs, ts, outv, ("ך"@, "כ"@));
        }
        if tv.contains("מ"@) && !tv.contains("ם"@) {
            assert(ts.contains("מ"@) && !ts.contains("ם"@));
            lemma_bridge_survives(a, b, tail, bs, ts, outv, ("ם"@, "מ"@));
        }
        if tv.contains("נ"@) && !tv.contains("ן"@) {
            assert(ts.contains("נ"@) && !ts.contains("ן"@));
            lemma_bridge_survives(a, b, tail, bs, ts, outv, ("ן"@, "נ"@));
        }
        if tv.contains("פ"@) && !tv.contains("ף"@) {
            assert(ts.contains("פ"@) && !ts.contains("ף"@));
            lemma_bridge_survives(a, b, tail, bs, ts, outv, ("ף"@, "פ"@));
        }
        if tv.contains("צ"@) && !tv.contains("ץ"@) {
            assert(ts.contains("צ"@) && !ts.contains("ץ"@));
            lemma_bridge_survives(a, b, tail, bs, ts, outv, ("ץ"@, "צ"@));
        }
        lemma_in_package_same(ts, tv, Package::Hiragana);
        lemma_in_package_same(ts, tv, Package::Katakana);
        assert forall|i: int| #![trigger package_tokens(Package::Hiragana)[i]]
            0 <= i < package_tokens(Package::Hiragana).len() implies ({
                let h = package_tokens(Package::Hiragana)[i]@;
                in_package(tv, Package::Katakana) && !in_package(tv, Package::Hiragana) && h.len() > 0
                    && 0x3041 <= h[0] as int <= 0x3096 && tv.contains(shifted_kana(h, 0x60))
                    ==> outv.contains((h, shifted_kana(h, 0x60)))
            }) by {
            let h = package_tokens(Package::Hiragana)[i]@;
            law_hiragana_falls_back_to_katakana(ts, o.case_mode@, bl, i);
            if in_package(tv, Package::Katakana) && !in_package(tv, Package::Hiragana) && h.len() > 0
                && 0x3041 <= h[0] as int <= 0x3096 && tv.contains(shifted_kana(h, 0x60)) {
                assert(ts.contains(shifted_kana(h, 0x60)));
                assert(!ts.contains(h));
                lemma_bridge_survives(a, b, tail, bs, ts, outv, (h, shifted_kana(h, 0x60)));
            }
        }
        assert forall|i: int| #![trigger package_tokens(Package::Katakana)[i]]
            0 <= i < package_tokens(Package::Katakana).len() implies ({
                let k = package_tokens(Package::Katakana)[i]@;
                in_package(tv, Package::Hiragana) && !in_package(tv, Package::Katakana) && k.len() > 0
                    && 0x30A1 <= k[0] as int <= 0x30F6 && tv.contains(shifted_kana(k, -0x60))
                    ==> outv.contains((k, shifted_kana(k, -0x60)))
            }) by {
            let k = package_tokens(Package::Katakana)[i]@;
            law_katakana_falls_back_to_hiragana(ts, o.case_mode@, bl, i);
            if in_package(tv, Package::Hiragana) && !in_package(tv, Package::Katakana) && k.len() > 0
                && 0x30A1 <= k[0] as int <= 0x30F6 && tv.contains(shifted_kana(k, -0x60)) {
                assert(ts.contains(shifted_kana(k, -0x60)));
                assert(!ts.contains(k));
                lemma_bridge_survives(a, b, tail, bs, ts, outv, (k, shifted_kana(k, -0x60)));
            }
        }
    }
}

/// All rewrite rules of an alphabet with the given (deduplicated) tokens.
/// The rules come longest left-hand side first, and none rewrites a token.
pub fn rewrite_rules(tokens: &Vec<String>, o: &Options) -> (r: Vec<(String, String)>)
    ensures
        rule_views(r@) == alphabet_rules(lex_order(views(tokens@)), *o),
        rules_sorted(rule_views(r@)),
        forall|k: int| 0 <= k < r@.len() ==> !views(tokens@).contains(#[trigger] rule_views(r@)[k].0),
        o.language_specific_bridges && views(tokens@).contains("כ"@) && !views(tokens@).contains("ך"@)
            ==> rule_views(r@).contains(("ך"@, "כ"@)),
        o.language_specific_bridges && views(tokens@).contains("מ"@) && !views(tokens@).contains("ם"@)
            ==> rule_views(r@).contains(("ם"@, "מ"@)),
        o.language_specific_bridges && views(tokens@).contains("נ"@) && !views(tokens@).contains("ן"@)
            ==> rule_views(r@).contains(("ן"@, "נ"@)),
        o.language_specific_bridges && views(tokens@).contains("פ"@) && !views(tokens@).contains("ף"@)
            ==> rule_views(r@).contains(("ף"@, "פ"@)),
        o.language_specific_bridges && views(tokens@).contains("צ"@) && !views(tokens@).contains("ץ"@)
            ==> rule_views(r@).contains(("ץ"@, "צ"@)),
        forall|i: int| #![trigger package_tokens(Package::Hiragana)[i]]
            0 <= i < package_tokens(Package::Hiragana).len() ==> ({
                let h = package_tokens(Package::Hiragana)[i]@;
                o.language_specific_bridges && in_package(views(tokens@), Package::Katakana)
                    && !in_package(views(tokens@), Package::Hiragana) && h.len() > 0
                    && 0x3041 <= h[0] as int <= 0x3096 && views(tokens@).contains(shifted_kana(h, 0x60))
                    ==> rule_views(r@).contains((h, shifted_kana(h, 0x60)))
            }),
        forall|i: int| #![trigger package_tokens(Package::Katakana)[i]]
            0 <= i < package_tokens(Package::Katakana).len() ==> ({
                let k = package_tokens(Package::Katakana)[i]@;
                o.language_specific_bridges && in_package(views(tokens@), Package::Hiragana)
                    && !in_package(views(tokens@), Package::Katakana) && k.len() > 0
                    && 0x30A1 <= k[0] as int <= 0x30F6 && views(tokens@).contains(shifted_kana(k, -0x60))
                    ==> rule_views(r@).contains((k, shifted_kana(k, -0x60)))
            }),
{
    let tset = token_order(tokens);
    let ghost ts = views(tset@);
    let mode = o.case_mode.as_str();
    let mut rw: Vec<(String, String)> = Vec::new();
    if o.signage_translits {
        let up = package_present(&tset, Package::LatinAsciiUpper);
        let lo = package_present(&tset, Package::LatinAsciiLower);
        signage_translits(&mut rw, &tset, up, lo);
    }
    let ghost r1 = rule_views(rw@);
    let sharp = str_equal(mode, "CapsOnly") && o.keep_ligatures && str_equal(o.german_sharp_s_uppercase.as_str(), "ẞ");
    if sharp {
        push_rule(&mut rw, "ß", "ẞ");
    }
    let ghost r2 = rule_views(rw@);
    apply_ligature_rules(&mut rw, &tset, o.keep_ligatures, o.rewrite_with_typographic_ligatures);
    let ghost a = rule_views(rw@);
    proof {
        let s1 = if o.signage_translits {
            signage_rules(ts, in_package(ts, Package::LatinAsciiUpper), in_package(ts, Package::LatinAsciiLower))
        } else {
            Seq::<RuleView>::empty()
        };
        assert(r1 =~= s1);
        assert(r2 =~= s1 + when(sharp, ("ß"@, "ẞ"@)));
        assert(a =~= informative_rules(ts, *o));
    }
    let blocked = sources_of(&rw);
    let mut bridges = bridges_for_sorted_tokens(&tset, o.language_specific_bridges, mode, &blocked);
    let ghost b = rule_views(bridges@);
    rw.append(&mut bridges);
    let ghost ab = rule_views(rw@);
    assert(ab =~= a + b);
    let ghost mut tail = Seq::<RuleView>::empty();
    if o.drop_diacritics {
        let blocked2 = sources_of(&rw);
        append_combining_strip_rules(&mut rw, &tset);
        let ghost c = rule_views(rw@);
        append_auto_diacritic_pack(&mut rw, &tset, &blocked2);
        proof {
            let cc = combining_rules(ts);
            let dd = diacritic_rules(ts, lex_order(lhs_list(ab)));
            assert(rule_views(rw@) =~= ab + (cc + dd));
            tail = cc + dd;
        }
    } else {
        assert(ab =~= ab + Seq::<RuleView>::empty());
    }
    assert(rule_views(rw@) == a + b + tail);
    let kept = drop_kept_rules(&rw, &tset);
    let out = order_rules(&kept);
    proof {
        assert(lex_sorted_of(ts, views(tokens@)));
        lemma_drop_kept_spares(rule_views(rw@), ts);
        assert forall|k: int| 0 <= k < out@.len() implies !views(tokens@).contains(#[trigger] rule_views(out@)[k].0) by {
            lemma_ordered_sources(rule_views(out@), rule_views(kept@), k);
            let j = choose|j: int| 0 <= j < rule_views(kept@).len() && rule_views(kept@)[j].0 == rule_views(out@)[k].0;
            assert(!ts.contains(rule_views(kept@)[j].0));
        }
        assert(mode@ == o.case_mode@);
        lemma_fallbacks_kept(views(tokens@), ts, *o, views(blocked@), a, b, tail, rule_views(out@));
    }
    out
}

} // verus!
