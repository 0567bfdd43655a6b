//! From an alphabet configuration to the list of glyph tokens: name lookups,
//! preset and bundle expansion, case policy, first-occurrence dedup and the
//! final token order.  Reading the TOML text is left to the caller, which
//! hands over the parsed `Config`.

use vstd::prelude::*;
use crate::glyph_db::{alias_slot, lemma_package_listed, lemma_package_names_sorted, lemma_slots_exact, package_name_views, package_slot, Package, Preset, package_names, package_name_table, presets, preset_table,
    all_packages, package_list, package_tokens};
use crate::bundles::{Bundle, bundle_names, bundle_name_table, in_bundle, bundle_contains,
    is_ligature_host, ligature_host};
use crate::text::{str_equal, push_char, chars_of};
use crate::lexorder::{char_seq_lt, chars_lt, lemma_lt_irreflexive, lemma_lt_total, lemma_lt_transitive, scalar_value, strictly_sorted};
use unicode_normalization::UnicodeNormalization;
use crate::bridges::{alphabet_rules, rewrite_rules};
use crate::token_set::lex_order;
use crate::rule_order::rules_sorted;

verus! {

broadcast use vstd::string::group_string_axioms;

/* ------------------------------ configuration ------------------------------ */

/// Builder options.
#[derive(Clone, Debug)]
pub struct Options {
    /// `"CapsOnly"`, `"UpperLower"` or `"LowerOnly"`.
    pub case_mode: String,
    pub drop_diacritics: bool,
    pub language_specific_bridges: bool,
    pub signage_translits: bool,
    pub keep_ligatures: bool,
    pub rewrite_with_typographic_ligatures: bool,
    /// `"SS"` or `"ẞ"`.
    pub german_sharp_s_uppercase: String,
}

/// `str::to_owned`.
pub(crate) fn owned(s: &str) -> (r: String)
    ensures
        r@ == s@,
{
    s.to_owned()
}

impl Default for Options {
    fn default() -> (r: Options)
        ensures
            r.case_mode@ == "UpperLower"@,
            !r.drop_diacritics,
            r.language_specific_bridges,
            !r.signage_translits,
            r.keep_ligatures,
            !r.rewrite_with_typographic_ligatures,
            r.german_sharp_s_uppercase@ == "ẞ"@,
    {
        Options {
            case_mode: owned("UpperLower"),
            drop_diacritics: false,
            language_specific_bridges: true,
            signage_translits: false,
            keep_ligatures: true,
            rewrite_with_typographic_ligatures: false,
            german_sharp_s_uppercase: owned("ẞ"),
        }
    }
}

/// An alphabet configuration: presets and bundles, explicit packages, options.
#[derive(Clone, Debug)]
pub struct Config {
    pub presets: Vec<String>,
    pub packages: Vec<String>,
    pub options: Options,
}

/// The outcome of building an alphabet: tokens, rewrite rules, warnings.
#[derive(Debug)]
pub struct Build {
    pub tokens: Vec<String>,
    pub rewrites: Vec<(String, String)>,
    pub warnings: Vec<String>,
}

/// Why a configuration is refused.
#[derive(Clone, Debug)]
pub enum BuildError {
    /// A preset list entry names neither a bundle nor a preset.
    UnknownPreset(String),
    /// A package list entry names no package.
    UnknownPackage(String),
    /// `case_mode` is none of the three modes.
    InvalidCaseMode(String),
}

/* ------------------------------ name lookups ------------------------------ */

/// The value of the first entry of `t` named `s`.
pub open spec fn first_named<T>(t: Seq<(&'static str, T)>, s: Seq<char>) -> Option<T>
    decreases t.len(),
{
    if t.len() == 0 {
        None
    } else if t[0].0@ == s {
        Some(t[0].1)
    } else {
        first_named(t.drop_first(), s)
    }
}

proof fn lemma_first_named_found<T>(t: Seq<(&'static str, T)>, s: Seq<char>)
    requires
        first_named(t, s) is Some,
    ensures
        exists|k: int| 0 <= k < t.len() && t[k].0@ == s && Some(t[k].1) == first_named(t, s),
    decreases t.len(),
{
    if t[0].0@ != s {
        lemma_first_named_found(t.drop_first(), s);
        let k = choose|k: int| 0 <= k < t.drop_first().len() && t.drop_first()[k].0@ == s && Some(t.drop_first()[k].1)
            == first_named(t.drop_first(), s);
        assert(t[k + 1] == t.drop_first()[k]);
    }
}

/// In a table whose names are in increasing order, looking up an entry's
/// name finds that entry.
proof fn lemma_first_named_sorted<T>(t: Seq<(&'static str, T)>, k: int)
    requires
        0 <= k < t.len(),
        strictly_sorted(Seq::new(t.len(), |j: int| t[j].0@)),
    ensures
        first_named(t, t[k].0@) == Some(t[k].1),
    decreases k,
{
    let v = Seq::new(t.len(), |j: int| t[j].0@);
    if k > 0 {
        assert(char_seq_lt(v[0], v[k]));
        lemma_lt_irreflexive(t[k].0@);
        let d = t.drop_first();
        let dv = Seq::new(d.len(), |j: int| d[j].0@);
        assert forall|i: int, j: int| 0 <= i < j < dv.len() implies char_seq_lt(#[trigger] dv[i], #[trigger] dv[j]) by {
            assert(dv[i] == v[i + 1]);
            assert(dv[j] == v[j + 1]);
        }
        lemma_first_named_sorted(d, k - 1);
        assert(d[k - 1] == t[k]);
    }
}

/// Every package has a name, its own, that selects it; and two different
/// names select the same package only for the alias pair `hangul.jamo` /
/// `hangul.jamo.all`.
pub proof fn law_package_names(p: Package, s1: Seq<char>, s2: Seq<char>)
    ensures
        0 <= package_slot(p) < package_name_table().len(),
        package_name_table()[package_slot(p)].1 == p,
        first_named(package_name_table(), package_name_table()[package_slot(p)].0@) == Some(p),
        first_named(package_name_table(), s1) == Some(p) && first_named(package_name_table(), s2) == Some(p) && s1
            != s2 ==> p == Package::HangulJamoAll && ((s1 == "hangul.jamo"@ && s2 == "hangul.jamo.all"@) || (s1
            == "hangul.jamo.all"@ && s2 == "hangul.jamo"@)),
{
    lemma_package_listed(p);
    let t = package_name_table();
    lemma_package_names_sorted();
    assert(package_name_views() =~= Seq::new(t.len(), |j: int| t[j].0@));
    lemma_first_named_sorted(t, package_slot(p));
    if first_named(t, s1) == Some(p) && first_named(t, s2) == Some(p) && s1 != s2 {
        lemma_first_named_found(t, s1);
        lemma_first_named_found(t, s2);
        let k1 = choose|k: int| 0 <= k < t.len() && t[k].0@ == s1 && Some(t[k].1) == first_named(t, s1);
        let k2 = choose|k: int| 0 <= k < t.len() && t[k].0@ == s2 && Some(t[k].1) == first_named(t, s2);
        lemma_slots_exact();
        assert(package_slot(t[k1].1) == k1 || k1 == alias_slot());
        assert(package_slot(t[k2].1) == k2 || k2 == alias_slot());
        assert(t[65].0 == "hangul.jamo");
        assert(t[69].0 == "hangul.jamo.all");
        assert(t[65].1 == Package::HangulJamoAll);
    }
}

fn lookup<T: Copy>(t: &[(&'static str, T)], s: &str) -> (r: Option<T>)
    ensures
        r == first_named(t@, s@),
{
    let mut i: usize = 0;
    assert(t@.skip(0) =~= t@);
    while i < t.len()
        invariant
            i <= t.len(),
            first_named(t@, s@) == first_named(t@.skip(i as int), s@),
        decreases t.len() - i,
    {
        let name = t[i].0;
        if str_equal(name, s) {
            return Some(t[i].1);
        }
        assert(t@.skip(i as int).drop_first() =~= t@.skip(i + 1));
        i += 1;
    }
    None
}

/// The package selected by a configuration name.
pub fn package_by_name(s: &str) -> (r: Option<Package>)
    ensures
        r == first_named(package_name_table(), s@),
{
    lookup(package_names(), s)
}

/// The bundle selected by a preset-list name.
pub fn bundle_by_name(s: &str) -> (r: Option<Bundle>)
    ensures
        r == first_named(bundle_name_table(), s@),
{
    lookup(bundle_names(), s)
}

/// The first preset of `t` named `s`.
pub open spec fn first_preset(t: Seq<Preset>, s: Seq<char>) -> Option<Preset>
    decreases t.len(),
{
    if t.len() == 0 {
        None
    } else if t[0].name@ == s {
        Some(t[0])
    } else {
        first_preset(t.drop_first(), s)
    }
}

/// The built-in preset named `name`, with its packages.
pub fn expand_preset(name: &str) -> (r: Option<(&'static [Package], &'static Preset)>)
    ensures
        match r {
            Some((pk, p)) => first_preset(preset_table(), name@) == Some(*p) && pk == p.packages,
            None => first_preset(preset_table(), name@).is_none(),
        },
{
    let t = presets();
    let mut i: usize = 0;
    assert(t@.skip(0) =~= t@);
    while i < t.len()
        invariant
            i <= t.len(),
            t@ == preset_table(),
            first_preset(t@, name@) == first_preset(t@.skip(i as int), name@),
        decreases t.len() - i,
    {
        let p: &'static Preset = &t[i];
        if str_equal(p.name, name) {
            return Some((p.packages, p));
        }
        assert(t@.skip(i as int).drop_first() =~= t@.skip(i + 1));
        i += 1;
    }
    None
}

/* --------------------------- package selection --------------------------- */

/// The packages of a bundle, in declaration order.
pub open spec fn bundle_packages(b: Bundle) -> Seq<Package> {
    package_list().filter(|p: Package| in_bundle(b, p))
}

/// The packages of bundle `b`, in declaration order.
pub fn packages_of_bundle(b: Bundle) -> (r: Vec<Package>)
    ensures
        r@ == bundle_packages(b),
{
    let all = all_packages();
    let ghost pred = |p: Package| in_bundle(b, p);
    let mut out: Vec<Package> = Vec::new();
    let mut i: usize = 0;
    assert(all@.take(0) =~= Seq::<Package>::empty());
    while i < all.len()
        invariant
            i <= all.len(),
            all@ == package_list(),
            pred == (|p: Package| in_bundle(b, p)),
            out@ == all@.take(i as int).filter(pred),
        decreases all.len() - i,
    {
        let p = all[i];
        proof {
            all@.take(i as int).lemma_filter_push(p, pred);
            assert(all@.take(i + 1) =~= all@.take(i as int).push(p));
        }
        if bundle_contains(b, p) {
            out.push(p);
        }
        i += 1;
    }
    assert(all@.take(all.len() as int) =~= all@);
    out
}

/// The packages of a preset, or none for an unknown name.
pub open spec fn preset_packages(s: Seq<char>) -> Seq<Package> {
    match first_preset(preset_table(), s) {
        Some(p) => p.packages@,
        None => Seq::empty(),
    }
}

/// The warning for a preset name that names no preset.
pub open spec fn unknown_preset_warning(s: Seq<char>) -> Seq<char> {
    "unknown preset '"@ + s + "'"@
}

/// First pass over the preset list: each known preset contributes its packages.
pub open spec fn preset_pass(ps: Seq<Seq<char>>) -> Seq<Package>
    decreases ps.len(),
{
    if ps.len() == 0 {
        Seq::empty()
    } else {
        preset_pass(ps.drop_last()) + preset_packages(ps.last())
    }
}

/// Warnings of the first pass: one per name that names no preset.
pub open spec fn preset_pass_warnings(ps: Seq<Seq<char>>) -> Seq<Seq<char>>
    decreases ps.len(),
{
    if ps.len() == 0 {
        Seq::empty()
    } else if first_preset(preset_table(), ps.last()).is_some() {
        preset_pass_warnings(ps.drop_last())
    } else {
        preset_pass_warnings(ps.drop_last()).push(unknown_preset_warning(ps.last()))
    }
}

/// The packages a preset-list name stands for in the second pass: a bundle,
/// else a preset; `None` when it names neither.
pub open spec fn entry_packages(s: Seq<char>) -> Option<Seq<Package>> {
    match first_named(bundle_name_table(), s) {
        Some(b) => Some(bundle_packages(b)),
        None => match first_preset(preset_table(), s) {
            Some(p) => Some(p.packages@),
            None => None,
        },
    }
}

/// Second pass over the preset list; fails on the first unknown name.
pub open spec fn bundle_pass(ps: Seq<Seq<char>>) -> Result<Seq<Package>, Seq<char>>
    decreases ps.len(),
{
    if ps.len() == 0 {
        Ok(Seq::empty())
    } else {
        match bundle_pass(ps.drop_last()) {
            Err(e) => Err(e),
            Ok(acc) => match entry_packages(ps.last()) {
                Some(x) => Ok(acc + x),
                None => Err(ps.last()),
            },
        }
    }
}

/// The explicitly named packages; fails on the first unknown name.
pub open spec fn named_pass(ns: Seq<Seq<char>>) -> Result<Seq<Package>, Seq<char>>
    decreases ns.len(),
{
    if ns.len() == 0 {
        Ok(Seq::empty())
    } else {
        match named_pass(ns.drop_last()) {
            Err(e) => Err(e),
            Ok(acc) => match first_named(package_name_table(), ns.last()) {
                Some(p) => Ok(acc.push(p)),
                None => Err(ns.last()),
            },
        }
    }
}

/// The scalars of each string.
pub open spec fn views(v: Seq<String>) -> Seq<Seq<char>> {
    v.map_values(|s: String| s@)
}

/// The list names the `everything` preset.
pub open spec fn names_everything(ps: Seq<Seq<char>>) -> bool {
    exists|i: int| 0 <= i < ps.len() && #[trigger] ps[i] == "everything"@
}

/// Packages of the first pass.
pub open spec fn first_pass(ps: Seq<Seq<char>>) -> Seq<Package> {
    if names_everything(ps) {
        package_list()
    } else {
        preset_pass(ps)
    }
}

/// Warnings of the first pass.
pub open spec fn first_pass_warnings(ps: Seq<Seq<char>>) -> Seq<Seq<char>> {
    if names_everything(ps) {
        Seq::empty()
    } else {
        preset_pass_warnings(ps)
    }
}

/// The packages and warnings that a configuration's names select.
pub struct Selection {
    pub packages: Vec<Package>,
    pub warnings: Vec<String>,
}

/// `String::push_str`.
pub(crate) fn push_str(s: &mut String, t: &str)
    ensures
        final(s)@ == old(s)@ + t@,
{
    let cs = chars_of(t);
    let mut i: usize = 0;
    let ghost s0 = s@;
    while i < cs.len()
        invariant
            i <= cs.len(),
            cs@ == t@,
            s@ == s0 + t@.take(i as int),
        decreases cs.len() - i,
    {
        push_char(s, cs[i]);
        i += 1;
        assert(s@ =~= s0 + t@.take(i as int));
    }
    assert(t@.take(cs.len() as int) =~= t@);
}

fn extend_packages(out: &mut Vec<Package>, more: &[Package])
    ensures
        final(out)@ == old(out)@ + more@,
{
    let mut i: usize = 0;
    let ghost o0 = out@;
    while i < more.len()
        invariant
            i <= more.len(),
            out@ == o0 + more@.take(i as int),
        decreases more.len() - i,
    {
        out.push(more[i]);
        i += 1;
        assert(out@ =~= o0 + more@.take(i as int));
    }
    assert(more@.take(more.len() as int) =~= more@);
}

fn is_everything(ps: &Vec<String>) -> (r: bool)
    ensures
        r == names_everything(views(ps@)),
{
    let mut i: usize = 0;
    while i < ps.len()
        invariant
            i <= ps.len(),
            forall|j: int| 0 <= j < i ==> views(ps@)[j] != "everything"@,
        decreases ps.len() - i,
    {
        if str_equal(ps[i].as_str(), "everything") {
            assert(views(ps@)[i as int] == "everything"@);
            return true;
        }
        i += 1;
    }
    false
}

/// Expands the preset list and the package list of a configuration, in the
/// order in which packages are taken: the first pass over presets (every
/// package for `everything`), the second pass over presets and bundles,
/// then the named packages.
pub fn select_packages(ps: &Vec<String>, ns: &Vec<String>) -> (r: Result<Selection, BuildError>)
    ensures
        match r {
            Ok(sel) => {
                &&& bundle_pass(views(ps@)) is Ok
                &&& named_pass(views(ns@)) is Ok
                &&& sel.packages@ == first_pass(views(ps@)) + bundle_pass(views(ps@))->Ok_0
                    + named_pass(views(ns@))->Ok_0
                &&& views(sel.warnings@) == first_pass_warnings(views(ps@))
            },
            Err(BuildError::UnknownPreset(s)) => bundle_pass(views(ps@)) == Err::<Seq<Package>, Seq<char>>(s@),
            Err(BuildError::UnknownPackage(s)) => bundle_pass(views(ps@)) is Ok
                && named_pass(views(ns@)) == Err::<Seq<Package>, Seq<char>>(s@),
            Err(BuildError::InvalidCaseMode(_)) => false,
        },
{
    let ghost pv = views(ps@);
    let ghost nv = views(ns@);
    let mut packages: Vec<Package> = Vec::new();
    let mut warnings: Vec<String> = Vec::new();
    if is_everything(ps) {
        let all = all_packages();
        extend_packages(&mut packages, all);
        assert(packages@ =~= first_pass(pv));
        assert(views(warnings@) =~= first_pass_warnings(pv));
    } else {
        let mut i: usize = 0;
        assert(pv.take(0) =~= Seq::<Seq<char>>::empty());
        while i < ps.len()
            invariant
                i <= ps.len(),
                pv == views(ps@),
                packages@ == preset_pass(pv.take(i as int)),
                views(warnings@) == preset_pass_warnings(pv.take(i as int)),
            decreases ps.len() - i,
        {
            let name = ps[i].as_str();
            assert(pv.take(i + 1).drop_last() =~= pv.take(i as int));
            assert(pv.take(i + 1).last() == name@);
            match expand_preset(name) {
                Some((pk, _)) => {
                    extend_packages(&mut packages, pk);
                    assert(views(warnings@) =~= preset_pass_warnings(pv.take(i + 1)));
                },
                None => {
                    let mut w = String::new();
                    push_str(&mut w, "unknown preset '");
                    push_str(&mut w, name);
                    push_str(&mut w, "'");
                    let ghost w0 = views(warnings@);
                    warnings.push(w);
                    assert(views(warnings@) =~= w0.push(unknown_preset_warning(name@)));
                    assert(packages@ =~= preset_pass(pv.take(i + 1)));
                },
            }
            i += 1;
        }
        assert(pv.take(ps.len() as int) =~= pv);
    }
    let ghost first = packages@;
    let mut i: usize = 0;
    assert(pv.take(0) =~= Seq::<Seq<char>>::empty());
    assert(packages@ =~= first + Seq::<Package>::empty());
    while i < ps.len()
        invariant
            i <= ps.len(),
            pv == views(ps@),
            bundle_pass(pv.take(i as int)) is Ok,
            packages@ == first + bundle_pass(pv.take(i as int))->Ok_0,
        decreases ps.len() - i,
    {
        let name = ps[i].as_str();
        assert(pv.take(i + 1).drop_last() =~= pv.take(i as int));
        assert(pv.take(i + 1).last() == name@);
        let ghost acc = bundle_pass(pv.take(i as int))->Ok_0;
        match bundle_by_name(name) {
            Some(b) => {
                let more = packages_of_bundle(b);
                extend_packages(&mut packages, more.as_slice());
                assert(packages@ =~= first + (acc + bundle_packages(b)));
            },
            None => match expand_preset(name) {
                Some((pk, _)) => {
                    extend_packages(&mut packages, pk);
                    assert(packages@ =~= first + (acc + pk@));
                },
                None => {
                    proof {
                        let t = pv.take(ps.len() as int);
                        lemma_pass_stays_failed(pv, i as int + 1, ps.len() as int);
                        assert(t =~= pv);
                    }
                    return Err(BuildError::UnknownPreset(ps[i].clone()));
                },
            },
        }
        i += 1;
    }
    assert(pv.take(ps.len() as int) =~= pv);
    let ghost second = packages@;
    let mut j: usize = 0;
    assert(nv.take(0) =~= Seq::<Seq<char>>::empty());
    assert(packages@ =~= second + Seq::<Package>::empty());
    while j < ns.len()
        invariant
            j <= ns.len(),
            nv == views(ns@),
            bundle_pass(views(ps@)) is Ok,
            named_pass(nv.take(j as int)) is Ok,
            packages@ == second + named_pass(nv.take(j as int))->Ok_0,
        decreases ns.len() - j,
    {
        let name = ns[j].as_str();
        assert(nv.take(j + 1).drop_last() =~= nv.take(j as int));
        assert(nv.take(j + 1).last() == name@);
        match package_by_name(name) {
            Some(p) => {
                packages.push(p);
                assert(packages@ =~= second + named_pass(nv.take(j + 1))->Ok_0);
            },
            None => {
                proof {
                    lemma_named_stays_failed(nv, j as int + 1, ns.len() as int);
                    assert(nv.take(ns.len() as int) =~= nv);
                }
                return Err(BuildError::UnknownPackage(ns[j].clone()));
            },
        }
        j += 1;
    }
    assert(nv.take(ns.len() as int) =~= nv);
    Ok(Selection { packages, warnings })
}

proof fn lemma_pass_stays_failed(pv: Seq<Seq<char>>, a: int, b: int)
    requires
        0 < a <= b <= pv.len(),
        bundle_pass(pv.take(a)) is Err,
    ensures
        bundle_pass(pv.take(b)) == bundle_pass(pv.take(a)),
    decreases b - a,
{
    if a < b {
        lemma_pass_stays_failed(pv, a, b - 1);
        assert(pv.take(b).drop_last() =~= pv.take(b - 1));
    }
}

proof fn lemma_named_stays_failed(nv: Seq<Seq<char>>, a: int, b: int)
    requires
        0 < a <= b <= nv.len(),
        named_pass(nv.take(a)) is Err,
    ensures
        named_pass(nv.take(b)) == named_pass(nv.take(a)),
    decreases b - a,
{
    if a < b {
        lemma_named_stays_failed(nv, a, b - 1);
        assert(nv.take(b).drop_last() =~= nv.take(b - 1));
    }
}

/* ----------------------------- token assembly ----------------------------- */

/// The canonical composition (NFC, UAX #15) of a string.
pub uninterp spec fn nfc_form(s: Seq<char>) -> Seq<char>;

/// `UnicodeNormalization::nfc`, collected into a string.  The normalization
/// algorithm is not restated; the result is named `nfc_form(s@)`.
#[verifier::external_body]
pub(crate) fn nfc(s: &str) -> (r: String)
    ensures
        r@ == nfc_form(s@),
{
    s.nfc().collect::<String>()
}

/// The uppercase mapping applied scalar by scalar (`char::to_uppercase`).
pub uninterp spec fn scalar_uppercase(s: Seq<char>) -> Seq<char>;

/// `str::to_uppercase`, which maps each scalar by `char::to_uppercase`
/// (uppercasing has no context-dependent rule) and concatenates the results.
#[verifier::external_body]
fn upper_scalars(s: &str) -> (r: String)
    ensures
        r@ == scalar_uppercase(s@),
{
    s.to_uppercase()
}

/// The lowercase mapping applied scalar by scalar (`char::to_lowercase`).
pub uninterp spec fn scalar_lowercase(s: Seq<char>) -> Seq<char>;

/// `char::to_lowercase` on each scalar of `s`, concatenated.
#[verifier::external_body]
pub(crate) fn lower_scalars(s: &str) -> (r: String)
    ensures
        r@ == scalar_lowercase(s@),
{
    s.chars().flat_map(|c| c.to_lowercase()).collect()
}

/// The capital form of a token: `ß` becomes `ẞ` when that is the chosen
/// capital, every other token is uppercased scalar by scalar.
pub open spec fn caps_form(t: Seq<char>, german_upper: Seq<char>) -> Seq<char> {
    if t == "ß"@ && german_upper == "ẞ"@ {
        "ẞ"@
    } else {
        scalar_uppercase(t)
    }
}

/// Capital form of one token.
pub fn to_upper(t: &str, german_upper: &str) -> (r: String)
    ensures
        r@ == caps_form(t@, german_upper@),
{
    if str_equal(t, "ß") && str_equal(german_upper, "ẞ") {
        owned("ẞ")
    } else {
        upper_scalars(t)
    }
}

/// The tokens of the packages, in order, each in NFC.
pub open spec fn raw_tokens(pkgs: Seq<Package>) -> Seq<Seq<char>>
    decreases pkgs.len(),
{
    if pkgs.len() == 0 {
        Seq::empty()
    } else {
        raw_tokens(pkgs.drop_last()) + package_tokens(pkgs.last()).map_values(|t: &'static str| nfc_form(t@))
    }
}

/// The tokens after the case policy; `None` for an unknown policy.
pub open spec fn cased_tokens(ts: Seq<Seq<char>>, mode: Seq<char>, german_upper: Seq<char>) -> Option<Seq<Seq<char>>> {
    if mode == "CapsOnly"@ {
        Some(ts.map_values(|t: Seq<char>| caps_form(t, german_upper)))
    } else if mode == "LowerOnly"@ {
        Some(ts.map_values(|t: Seq<char>| scalar_lowercase(t)))
    } else if mode == "UpperLower"@ {
        Some(ts)
    } else {
        None
    }
}

/// The first occurrence of each element, in order.
pub open spec fn dedup_first(s: Seq<Seq<char>>) -> Seq<Seq<char>>
    decreases s.len(),
{
    if s.len() == 0 {
        Seq::empty()
    } else if dedup_first(s.drop_last()).contains(s.last()) {
        dedup_first(s.drop_last())
    } else {
        dedup_first(s.drop_last()).push(s.last())
    }
}

fn contains_str(v: &Vec<String>, t: &String) -> (r: bool)
    ensures
        r == views(v@).contains(t@),
{
    let mut i: usize = 0;
    while i < v.len()
        invariant
            i <= v.len(),
            forall|j: int| 0 <= j < i ==> views(v@)[j] != t@,
        decreases v.len() - i,
    {
        if v[i] == *t {
            assert(views(v@)[i as int] == t@);
            return true;
        }
        i += 1;
    }
    false
}

/// The tokens of the packages after NFC and the case policy, each kept at
/// its first occurrence.
pub fn assemble_tokens(pkgs: &Vec<Package>, opts: &Options) -> (r: Result<Vec<String>, BuildError>)
    ensures
        match r {
            Ok(v) => cased_tokens(raw_tokens(pkgs@), opts.case_mode@, opts.german_sharp_s_uppercase@) is Some
                && views(v@) == dedup_first(
                    cased_tokens(raw_tokens(pkgs@), opts.case_mode@, opts.german_sharp_s_uppercase@)->Some_0),
            Err(BuildError::InvalidCaseMode(m)) => m@ == opts.case_mode@
                && cased_tokens(raw_tokens(pkgs@), opts.case_mode@, opts.german_sharp_s_uppercase@) is None,
            Err(_) => false,
        },
{
    let mode = opts.case_mode.as_str();
    let g = opts.german_sharp_s_uppercase.as_str();
    let caps = str_equal(mode, "CapsOnly");
    let lower = str_equal(mode, "LowerOnly");
    if !caps && !lower && !str_equal(mode, "UpperLower") {
        return Err(BuildError::InvalidCaseMode(opts.case_mode.clone()));
    }
    let ghost cased = cased_tokens(raw_tokens(pkgs@), mode@, g@)->Some_0;
    let ghost f = |t: Seq<char>| if caps { caps_form(t, g@) } else if lower { scalar_lowercase(t) } else { t };
    proof {
        lemma_cased_is_map(pkgs@, mode@, g@, caps, lower, f);
    }
    let mut out: Vec<String> = Vec::new();
    let ghost mut seen: Seq<Seq<char>> = Seq::empty();
    let mut i: usize = 0;
    while i < pkgs.len()
        invariant
            i <= pkgs.len(),
            caps == (mode@ == "CapsOnly"@),
            lower == (mode@ == "LowerOnly"@),
            mode@ == opts.case_mode@,
            g@ == opts.german_sharp_s_uppercase@,
            f == (|t: Seq<char>| if caps { caps_form(t, g@) } else if lower { scalar_lowercase(t) } else { t }),
            seen == raw_tokens(pkgs@.take(i as int)).map_values(f),
            views(out@) == dedup_first(seen),
        decreases pkgs.len() - i,
    {
        let toks = pkgs[i].tokens();
        let ghost seen_i = seen;
        let mut k: usize = 0;
        while k < toks.len()
            invariant
                i < pkgs.len(),
                k <= toks.len(),
                toks@ == package_tokens(pkgs@[i as int]),
                caps == (mode@ == "CapsOnly"@),
                lower == (mode@ == "LowerOnly"@),
                f == (|t: Seq<char>| if caps { caps_form(t, g@) } else if lower { scalar_lowercase(t) } else { t }),
                seen == seen_i + toks@.take(k as int).map_values(|t: &'static str| f(nfc_form(t@))),
                views(out@) == dedup_first(seen),
            decreases toks.len() - k,
        {
            let n = nfc(toks[k]);
            let t = if caps {
                to_upper(n.as_str(), g)
            } else if lower {
                lower_scalars(n.as_str())
            } else {
                n
            };
            assert(t@ == f(nfc_form(toks@[k as int]@)));
            let ghost seen_prev = seen;
            proof {
                seen = seen.push(t@);
                assert(seen.drop_last() =~= seen_prev);
                assert(toks@.take(k + 1).map_values(|t: &'static str| f(nfc_form(t@)))
                    =~= toks@.take(k as int).map_values(|t: &'static str| f(nfc_form(t@))).push(t@));
            }
            if !contains_str(&out, &t) {
                out.push(t);
                assert(views(out@) =~= dedup_first(seen_prev).push(seen.last()));
            }
            k += 1;
        }
        proof {
            assert(toks@.take(toks.len() as int) =~= toks@);
            lemma_raw_tokens_step(pkgs@, i as int, f);
        }
        i += 1;
    }
    assert(pkgs@.take(pkgs.len() as int) =~= pkgs@);
    Ok(out)
}

proof fn lemma_raw_tokens_step(pkgs: Seq<Package>, i: int, f: spec_fn(Seq<char>) -> Seq<char>)
    requires
        0 <= i < pkgs.len(),
    ensures
        raw_tokens(pkgs.take(i + 1)).map_values(f) == raw_tokens(pkgs.take(i)).map_values(f)
            + package_tokens(pkgs[i]).map_values(|t: &'static str| f(nfc_form(t@))),
{
    assert(pkgs.take(i + 1).drop_last() =~= pkgs.take(i));
    let a = raw_tokens(pkgs.take(i));
    let b = package_tokens(pkgs[i]).map_values(|t: &'static str| nfc_form(t@));
    assert((a + b).map_values(f) =~= a.map_values(f) + package_tokens(pkgs[i]).map_values(|t: &'static str| f(nfc_form(t@))));
}

proof fn lemma_cased_is_map(pkgs: Seq<Package>, mode: Seq<char>, g: Seq<char>, caps: bool, lower: bool,
    f: spec_fn(Seq<char>) -> Seq<char>)
    requires
        caps == (mode == "CapsOnly"@),
        lower == (mode == "LowerOnly"@),
        caps || lower || mode == "UpperLower"@,
        f == (|t: Seq<char>| if caps { caps_form(t, g) } else if lower { scalar_lowercase(t) } else { t }),
    ensures
        cased_tokens(raw_tokens(pkgs), mode, g) == Some(raw_tokens(pkgs).map_values(f)),
        raw_tokens(pkgs.take(0)).map_values(f) == Seq::<Seq<char>>::empty(),
{
    let ts = raw_tokens(pkgs);
    if caps {
        assert(ts.map_values(|t: Seq<char>| caps_form(t, g)) =~= ts.map_values(f));
    } else if lower {
        assert(ts.map_values(|t: Seq<char>| scalar_lowercase(t)) =~= ts.map_values(f));
    } else {
        assert(ts =~= ts.map_values(f));
    }
    assert(pkgs.take(0) =~= Seq::<Package>::empty());
    assert(raw_tokens(pkgs.take(0)).map_values(f) =~= Seq::<Seq<char>>::empty());
}

/* ------------------------------ token order ------------------------------ */

/// Token order: more scalars first, then `String` order.
pub open spec fn token_before(a: Seq<char>, b: Seq<char>) -> bool {
    a.len() > b.len() || (a.len() == b.len() && char_seq_lt(a, b))
}

/// Strictly increasing in token order.
pub open spec fn in_token_order(v: Seq<Seq<char>>) -> bool {
    forall|i: int, j: int| 0 <= i < j < v.len() ==> token_before(#[trigger] v[i], #[trigger] v[j])
}

pub proof fn lemma_token_before_transitive(a: Seq<char>, b: Seq<char>, c: Seq<char>)
    requires
        token_before(a, b),
        token_before(b, c),
    ensures
        token_before(a, c),
{
    if a.len() == b.len() && b.len() == c.len() {
        lemma_lt_transitive(a, b, c);
    }
}

pub proof fn lemma_token_before_total(a: Seq<char>, b: Seq<char>)
    requires
        a != b,
    ensures
        token_before(a, b) || token_before(b, a),
{
    if a.len() == b.len() {
        lemma_lt_total(a, b);
    }
}

fn token_lt(a: &Vec<char>, b: &Vec<char>) -> (r: bool)
    ensures
        r == token_before(a@, b@),
{
    a.len() > b.len() || (a.len() == b.len() && chars_lt(a, b))
}

/// The tokens in token order, each once.
pub fn order_tokens(v: &Vec<String>) -> (r: Vec<String>)
    ensures
        in_token_order(views(r@)),
        forall|x: Seq<char>| views(r@).contains(x) <==> views(v@).contains(x),
{
    let mut out: Vec<String> = Vec::new();
    let mut keys: Vec<Vec<char>> = Vec::new();
    let mut i: usize = 0;
    while i < v.len()
        invariant
            i <= v.len(),
            out.len() == keys.len(),
            forall|j: int| 0 <= j < keys.len() ==> #[trigger] keys@[j]@ == views(out@)[j],
            in_token_order(views(out@)),
            forall|x: Seq<char>| views(out@).contains(x) <==> views(v@.take(i as int)).contains(x),
        decreases v.len() - i,
    {
        let k = chars_of(v[i].as_str());
        let mut p: usize = 0;
        while p < keys.len() && token_lt(&keys[p], &k)
            invariant
                p <= keys.len(),
                forall|a: int| 0 <= a < p ==> token_before(#[trigger] keys@[a]@, k@),
            decreases keys.len() - p,
        {
            p += 1;
        }
        let ghost old_out = views(out@);
        let ghost old_keys = keys@;
        assert(views(v@.take(i + 1)) =~= views(v@.take(i as int)).push(k@));
        assert forall|a: int| 0 <= a < p implies token_before(#[trigger] old_out[a], k@) by {
            assert(old_keys[a]@ == old_out[a]);
        }
        if p < keys.len() && crate::text::chars_equal(&keys[p], &k) {
            assert(old_out[p as int] == k@);
            assert forall|x: Seq<char>| views(out@).contains(x) <==> views(v@.take(i + 1)).contains(x) by {
                let s0 = views(v@.take(i as int));
                if x == k@ {
                    assert(views(out@)[p as int] == x);
                }
                if views(v@.take(i + 1)).contains(x) && x != k@ {
                    let j = choose|j: int| 0 <= j < i + 1 && #[trigger] views(v@.take(i + 1))[j] == x;
                    assert(s0[j] == x);
                    assert(s0.contains(x));
                }
                if views(out@).contains(x) {
                    assert(s0.contains(x));
                    let j = choose|j: int| 0 <= j < i && #[trigger] s0[j] == x;
                    assert(views(v@.take(i + 1))[j] == x);
                }
            }
        } else {
            proof {
                if p < keys.len() {
                    lemma_token_before_total(old_out[p as int], k@);
                }
                assert forall|b: int| p <= b < old_out.len() implies token_before(k@, #[trigger] old_out[b]) by {
                    if b > p {
                        lemma_token_before_transitive(k@, old_out[p as int], old_out[b]);
                    }
                }
            }
            keys.insert(p, k);
            out.insert(p, v[i].clone());
            let ghost nv = views(out@);
            assert(nv =~= old_out.insert(p as int, k@));
            assert forall|a: int, b: int| 0 <= a < b < nv.len() implies token_before(#[trigger] nv[a], #[trigger] nv[b]) by {
                if b < p {
                } else if b == p {
                } else if a < p {
                    lemma_token_before_transitive(nv[a], k@, nv[b]);
                } else if a == p {
                } else {
                }
            }
            assert forall|j: int| 0 <= j < keys.len() implies #[trigger] keys@[j]@ == views(out@)[j] by {
                if j > p {
                    assert(keys@[j] == keys@[j]);
                }
            }
            assert forall|x: Seq<char>| views(out@).contains(x) <==> views(v@.take(i + 1)).contains(x) by {
                let s0 = views(v@.take(i as int));
                if views(v@.take(i + 1)).contains(x) && x != k@ {
                    let j = choose|j: int| 0 <= j < i + 1 && #[trigger] views(v@.take(i + 1))[j] == x;
                    assert(s0[j] == x);
                    assert(s0.contains(x));
                    assert(old_out.contains(x));
                }
                if views(out@).contains(x) && x != k@ {
                    let j = choose|j: int| 0 <= j < nv.len() && nv[j] == x;
                    if j < p {
                        assert(old_out[j] == x);
                    } else {
                        assert(old_out[j - 1] == x);
                    }
                    assert(old_out.contains(x));
                    assert(s0.contains(x));
                    let t = choose|t: int| 0 <= t < i && #[trigger] s0[t] == x;
                    assert(views(v@.take(i + 1))[t] == x);
                }
                if views(out@).contains(x) {
                    let j = choose|j: int| 0 <= j < nv.len() && nv[j] == x;
                    if j < p {
                        assert(old_out[j] == x);
                    } else if j > p {
                        assert(old_out[j - 1] == x);
                    }
                }
                if old_out.contains(x) {
                    let j = choose|j: int| 0 <= j < old_out.len() && old_out[j] == x;
                    if j < p {
                        assert(nv[j] == x);
                    } else {
                        assert(nv[j + 1] == x);
                    }
                }
                if x == k@ {
                    assert(nv[p as int] == x);
                    assert(views(v@.take(i + 1))[i as int] == x);
                }
            }
        }
        i += 1;
    }
    assert(v@.take(v.len() as int) =~= v@);
    out
}

/* ------------------------------- the build ------------------------------- */

/// The warning for a sharp-s capital that only `CapsOnly` uses.
pub open spec fn sharp_s_warning(mode: Seq<char>, german_upper: Seq<char>) -> Seq<Seq<char>> {
    if mode != "CapsOnly"@ && german_upper == "SS"@ {
        seq!["german_sharp_s_uppercase=SS has no effect unless case_mode=CapsOnly"@]
    } else {
        Seq::empty()
    }
}

/// A scalar of the Unified Canadian Aboriginal Syllabics block.
pub open spec fn is_syllabic(c: char) -> bool {
    0x1400 <= c as int <= 0x167F
}

/// Some token holds a syllabics scalar.
pub open spec fn has_syllabics(v: Seq<Seq<char>>) -> bool {
    exists|i: int, j: int| 0 <= i < v.len() && 0 <= j < v[i].len() && #[trigger] is_syllabic(v[i][j])
}

/// The warning that `CapsOnly` cannot act on syllabics.
pub open spec fn syllabics_warning(mode: Seq<char>, toks: Seq<Seq<char>>) -> Seq<Seq<char>> {
    if mode == "CapsOnly"@ && has_syllabics(toks) {
        seq!["case_mode=CapsOnly has no effect on Canadian syllabics (unicameral)"@]
    } else {
        Seq::empty()
    }
}

/// The packages, with both typographic ligature packages appended when
/// ligatures are kept and rewritten and a Latin host package is present.
pub open spec fn with_ligatures(pk: Seq<Package>, keep: bool, typographic: bool) -> Seq<Package> {
    if keep && typographic && exists|i: int| 0 <= i < pk.len() && #[trigger] is_ligature_host(pk[i]) {
        pk.push(Package::LatinLigaturesUpper).push(Package::LatinLigaturesLower)
    } else {
        pk
    }
}

/// The scalars of each rule.
pub open spec fn rule_views(v: Seq<(String, String)>) -> Seq<(Seq<char>, Seq<char>)> {
    v.map_values(|r: (String, String)| (r.0@, r.1@))
}

fn has_ligature_host(pk: &Vec<Package>) -> (r: bool)
    ensures
        r == exists|i: int| 0 <= i < pk@.len() && #[trigger] is_ligature_host(pk@[i]),
{
    let mut i: usize = 0;
    while i < pk.len()
        invariant
            i <= pk.len(),
            forall|j: int| 0 <= j < i ==> !#[trigger] is_ligature_host(pk@[j]),
        decreases pk.len() - i,
    {
        if ligature_host(pk[i]) {
            return true;
        }
        i += 1;
    }
    false
}

fn any_syllabic(v: &Vec<String>) -> (r: bool)
    ensures
        r == has_syllabics(views(v@)),
{
    let mut i: usize = 0;
    while i < v.len()
        invariant
            i <= v.len(),
            forall|a: int, b: int| 0 <= a < i && 0 <= b < views(v@)[a].len() ==> !#[trigger] is_syllabic(views(v@)[a][b]),
        decreases v.len() - i,
    {
        let cs = chars_of(v[i].as_str());
        let mut j: usize = 0;
        while j < cs.len()
            invariant
                i < v.len(),
                j <= cs.len(),
                cs@ == views(v@)[i as int],
                forall|b: int| 0 <= b < j ==> !#[trigger] is_syllabic(cs@[b]),
            decreases cs.len() - j,
        {
            let c = scalar_value(cs[j]);
            if 0x1400 <= c && c <= 0x167F {
                assert(is_syllabic(views(v@)[i as int][j as int]));
                return true;
            }
            j += 1;
        }
        i += 1;
    }
    false
}

/// Builds the alphabet of a configuration: package selection, tokens in
/// token order, the rewrite rules and the warnings.  The options in effect
/// are the configuration's own; presets contribute packages only.
pub fn build_from_config(cfg: &Config) -> (r: Result<Build, BuildError>)
    ensures
        ({
            let pv = views(cfg.presets@);
            let nv = views(cfg.packages@);
            let o = cfg.options;
            let pk = with_ligatures(first_pass(pv) + bundle_pass(pv)->Ok_0 + named_pass(nv)->Ok_0,
                o.keep_ligatures, o.rewrite_with_typographic_ligatures);
            let cased = cased_tokens(raw_tokens(pk), o.case_mode@, o.german_sharp_s_uppercase@);
            match r {
                Ok(b) => {
                    &&& bundle_pass(pv) is Ok
                    &&& named_pass(nv) is Ok
                    &&& cased is Some
                    &&& in_token_order(views(b.tokens@))
                    &&& forall|x: Seq<char>| views(b.tokens@).contains(x) <==> dedup_first(cased->Some_0).contains(x)
                    &&& rule_views(b.rewrites@) == alphabet_rules(lex_order(dedup_first(cased->Some_0)), o)
                    &&& rules_sorted(rule_views(b.rewrites@))
                    &&& forall|k: int| 0 <= k < b.rewrites@.len() ==> !views(b.tokens@).contains(#[trigger] rule_views(b.rewrites@)[k].0)
                    &&& views(b.warnings@) == first_pass_warnings(pv) + sharp_s_warning(o.case_mode@, o.german_sharp_s_uppercase@)
                        + syllabics_warning(o.case_mode@, dedup_first(cased->Some_0))
                },
                Err(BuildError::UnknownPreset(s)) => bundle_pass(pv) == Err::<Seq<Package>, Seq<char>>(s@),
                Err(BuildError::UnknownPackage(s)) => bundle_pass(pv) is Ok
                    && named_pass(nv) == Err::<Seq<Package>, Seq<char>>(s@),
                Err(BuildError::InvalidCaseMode(m)) => bundle_pass(pv) is Ok && named_pass(nv) is Ok
                    && cased is None && m@ == o.case_mode@,
            }
        }),
{
    let o = &cfg.options;
    let sel = match select_packages(&cfg.presets, &cfg.packages) {
        Ok(sel) => sel,
        Err(e) => {
            return Err(e);
        },
    };
    let mut packages = sel.packages;
    let mut warnings = sel.warnings;
    let ghost w0 = views(warnings@);
    let mode = o.case_mode.as_str();
    let g = o.german_sharp_s_uppercase.as_str();
    let caps = str_equal(mode, "CapsOnly");
    if !caps && str_equal(g, "SS") {
        warnings.push(owned("german_sharp_s_uppercase=SS has no effect unless case_mode=CapsOnly"));
    }
    assert(views(warnings@) =~= w0 + sharp_s_warning(mode@, g@));
    let ghost pk0 = packages@;
    if o.keep_ligatures && o.rewrite_with_typographic_ligatures && has_ligature_host(&packages) {
        packages.push(Package::LatinLigaturesUpper);
        packages.push(Package::LatinLigaturesLower);
    }
    assert(packages@ == with_ligatures(pk0, o.keep_ligatures, o.rewrite_with_typographic_ligatures));
    let assembled = match assemble_tokens(&packages, o) {
        Ok(v) => v,
        Err(e) => {
            return Err(e);
        },
    };
    let rewrites = rewrite_rules(&assembled, o);
    let tokens = order_tokens(&assembled);
    let ghost w1 = views(warnings@);
    if caps && any_syllabic(&tokens) {
        warnings.push(owned("case_mode=CapsOnly has no effect on Canadian syllabics (unicameral)"));
    }
    proof {
        if mode@ == "CapsOnly"@ {
            if has_syllabics(views(assembled@)) {
                let (i, j) = choose|i: int, j: int| 0 <= i < views(assembled@).len() && 0 <= j < views(assembled@)[i].len()
                    && #[trigger] is_syllabic(views(assembled@)[i][j]);
                let x = views(assembled@)[i];
                assert(views(assembled@).contains(x));
                let k = choose|k: int| 0 <= k < views(tokens@).len() && views(tokens@)[k] == x;
                assert(is_syllabic(views(tokens@)[k][j]));
            }
            if has_syllabics(views(tokens@)) {
                let (i, j) = choose|i: int, j: int| 0 <= i < views(tokens@).len() && 0 <= j < views(tokens@)[i].len()
                    && #[trigger] is_syllabic(views(tokens@)[i][j]);
                let x = views(tokens@)[i];
                assert(views(tokens@).contains(x));
                let k = choose|k: int| 0 <= k < views(assembled@).len() && views(assembled@)[k] == x;
                assert(is_syllabic(views(assembled@)[k][j]));
            }
        }
    }
    assert(views(warnings@) =~= w1 + syllabics_warning(mode@, views(assembled@)));
    Ok(Build { tokens, rewrites, warnings })
}

} // verus!
