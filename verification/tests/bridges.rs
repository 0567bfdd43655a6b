use alphaword_blocks::bridges::{build_bridges_for_tokens, rewrite_rules};
use alphaword_blocks::catalog::Options;
use alphaword_blocks::glyph_db::Package;
use alphaword_blocks::rule_order::order_rules;
use alphaword_blocks::token_set::{has_str, token_order};

fn s(v: &[&str]) -> Vec<String> {
    v.iter().map(|x| x.to_string()).collect()
}

fn r(a: &str, b: &str) -> (String, String) {
    (a.to_string(), b.to_string())
}

fn opts(mode: &str) -> Options {
    let mut o = Options::default();
    o.case_mode = mode.to_string();
    o
}

fn sorted_by_lhs(rules: &[(String, String)]) -> bool {
    rules.windows(2).all(|w| {
        let (a, b) = (&w[0].0, &w[1].0);
        a.len() > b.len() || (a.len() == b.len() && a <= b)
    })
}

#[test]
fn ordering_is_stable_and_collapses_neighbours() {
    let v = vec![r("a", "1"), r("ch", "x"), r("a", "2"), r("a", "2"), r("b", "3"), r("ch", "x"), r("é", "e")];
    let o = order_rules(&v);
    assert_eq!(o, vec![r("ch", "x"), r("é", "e"), r("a", "1"), r("a", "2"), r("b", "3")]);
    let w = vec![r("a", "1"), r("a", "2"), r("a", "1")];
    assert_eq!(order_rules(&w), w);
}

#[test]
fn token_set_orders_and_finds() {
    let t = token_order(&s(&["b", "a", "ch", "a", "Z"]));
    assert_eq!(t, s(&["Z", "a", "b", "ch"]));
    assert!(has_str(&t, "ch"));
    assert!(!has_str(&t, "c"));
}

#[test]
fn lowercase_kit_bridges() {
    let toks = s(&["a", "b", "c"]);
    let rules = rewrite_rules(&toks, &opts("UpperLower"));
    assert!(sorted_by_lhs(&rules));
    assert!(rules.contains(&r("A", "a")));
    assert!(rules.contains(&r("À", "a")));
    assert!(rules.contains(&r("ĸ", "k")) == false);
    assert!(rules.contains(&r("\u{0430}", "a")));
    assert!(!rules.iter().any(|x| x.0 == "a" || x.0 == "b" || x.0 == "c"));
    assert!(!rules.contains(&r("D", "d")));
}

#[test]
fn ligatures_split_when_not_kept() {
    let mut o = opts("UpperLower");
    o.keep_ligatures = false;
    let rules = rewrite_rules(&s(&["f", "i", "l"]), &o);
    assert!(rules.contains(&r("ﬁ", "fi")));
    assert!(rules.contains(&r("ﬃ", "ffi")));
    let kept = rewrite_rules(&s(&["f", "i", "ﬁ"]), &o);
    assert!(!kept.iter().any(|x| x.0 == "ﬁ"));
}

#[test]
fn typographic_ligatures_join_runs() {
    let mut o = opts("UpperLower");
    o.rewrite_with_typographic_ligatures = true;
    let rules = rewrite_rules(&s(&["f", "i", "ﬁ"]), &o);
    assert!(rules.contains(&r("fi", "ﬁ")));
    assert!(!rules.iter().any(|x| x.0 == "ffi"));
}

#[test]
fn signage_spellings() {
    let mut o = opts("LowerOnly");
    o.signage_translits = true;
    let lower: Vec<String> = ('a'..='z').map(|c| c.to_string()).collect();
    let rules = rewrite_rules(&lower, &o);
    assert!(rules.contains(&r("ä", "ae")));
    assert!(rules.contains(&r("Ä", "ae")));
    assert!(rules.contains(&r("ß", "ss")));
    assert!(rules.contains(&r("ɶ", "oe")));
    assert!(rules.contains(&r("a\u{0308}", "ae")));
    assert!(sorted_by_lhs(&rules));
}

#[test]
fn sharp_s_rule_for_capital_kits() {
    let mut o = opts("CapsOnly");
    o.german_sharp_s_uppercase = "ẞ".to_string();
    let rules = rewrite_rules(&s(&["A", "ẞ"]), &o);
    assert_eq!(rules.iter().filter(|x| **x == r("ß", "ẞ")).count(), 1);
    assert!(rules.contains(&r("a", "A")));
}

#[test]
fn diacritics_dropped_to_bases() {
    let mut o = opts("UpperLower");
    o.drop_diacritics = true;
    let rules = rewrite_rules(&s(&["e", "é"]), &o);
    assert!(rules.contains(&r("e\u{0301}", "é")));
    assert!(rules.contains(&r("e\u{0300}", "e")));
    assert!(rules.contains(&r("è", "e")));
    assert!(!rules.iter().any(|x| x.0 == "é"));
    let plain = rewrite_rules(&s(&["e"]), &o);
    assert!(plain.contains(&r("É", "e")));
    assert!(plain.contains(&r("e\u{0301}", "e")));
}

#[test]
fn kana_fall_back_to_the_kept_script() {
    let hira: Vec<String> = Package::Hiragana.tokens().iter().map(|x| x.to_string()).collect();
    let rules = rewrite_rules(&hira, &opts("UpperLower"));
    assert!(rules.contains(&r("ア", "あ")));
    assert!(rules.contains(&r("カ", "か")));
}

#[test]
fn greek_final_sigma_and_caps_bridges() {
    let rules = rewrite_rules(&s(&["σ"]), &opts("UpperLower"));
    assert!(rules.contains(&r("ς", "σ")));
    let caps = rewrite_rules(&s(&["Σ"]), &opts("CapsOnly"));
    assert_eq!(caps.iter().filter(|x| **x == r("σ", "Σ")).count(), 1);
}

#[test]
fn cyrillic_stand_ins_and_look_alikes() {
    let mut toks: Vec<String> = Package::CyrillicRuLower.tokens().iter().map(|x| x.to_string()).collect();
    toks.sort();
    let rules = rewrite_rules(&toks, &opts("LowerOnly"));
    assert!(rules.contains(&r("ї", "йи")));
    assert!(rules.contains(&r("Ї", "йи")));
    assert!(rules.contains(&r("a", "а")));
    assert!(rules.contains(&r("4", "ч")));
}

#[test]
fn bridges_respect_blocked_sources() {
    let toks = token_order(&s(&["A", "a"]));
    let none = token_order(&s(&[]));
    let open = build_bridges_for_tokens(&toks, true, "UpperLower", &none);
    assert!(open.contains(&r("À", "A")));
    let blocked = token_order(&s(&["À"]));
    let shut = build_bridges_for_tokens(&toks, true, "UpperLower", &blocked);
    assert!(!shut.iter().any(|x| x.0 == "À"));
}

#[test]
fn bridges_take_any_token_list() {
    let sorted = build_bridges_for_tokens(&token_order(&s(&["A", "a"])), true, "UpperLower", &token_order(&s(&[])));
    let loose = build_bridges_for_tokens(&s(&["a", "A", "a"]), true, "UpperLower", &s(&[]));
    assert_eq!(sorted, loose);
    assert!(sorted_by_lhs(&loose));
    assert!(loose.windows(2).all(|w| w[0] != w[1]));
}
