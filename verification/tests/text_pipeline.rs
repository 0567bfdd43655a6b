use alphaword_blocks::alphabet::Alphabet;
use alphaword_blocks::bundles::Bundle;
use alphaword_blocks::catalog::{
    assemble_tokens, build_from_config, bundle_by_name, expand_preset, order_tokens, package_by_name,
    packages_of_bundle, select_packages, to_upper, BuildError, Config, Options,
};
use alphaword_blocks::conf::{parse_conf_lines, ConfError};
use alphaword_blocks::corpus::{canonical_words, remove_words};
use alphaword_blocks::cubes::{parse_cubes_jsconst, parse_cubes_pythonic, scan_js_cubes, CubeError};
use alphaword_blocks::filters::{remove_long_words, remove_roman_numerals};
use alphaword_blocks::glyph_db::{all_packages, presets, Package};
use alphaword_blocks::lexorder::str_lt;
use alphaword_blocks::noise::{find_noisy_words, looks_noisy};
use alphaword_blocks::session::{is_yes, next_round, round_event, parse_i64, parse_indices, parse_repair_command, parse_usize, RepairAction, RepairCommand, Round, RoundEvent};
use alphaword_blocks::types::RepairMode;
use alphaword_blocks::tokenizer::{build_lexicon, lexicon_alphabet, regularize_name, Lexicon};

fn s(v: &[&str]) -> Vec<String> {
    v.iter().map(|x| x.to_string()).collect()
}

fn lex_of(tokens: &[&str], rules: &[(&str, &str)]) -> Lexicon {
    let rw: Vec<(String, String)> = rules.iter().map(|(a, b)| (a.to_string(), b.to_string())).collect();
    build_lexicon(&s(tokens), &rw)
}

#[test]
fn package_tokens_and_names() {
    assert_eq!(Package::LatinAsciiUpper.tokens().len(), 26);
    assert_eq!(Package::LatinAsciiUpper.tokens()[0], "A");
    assert_eq!(Package::SpanishCoreLower.tokens(), &["ñ"]);
    assert_eq!(package_by_name("latin.ascii.lower"), Some(Package::LatinAsciiLower));
    assert_eq!(package_by_name("hawaiian.okina"), Some(Package::HawaiianOkina));
    assert_eq!(package_by_name("no.such.package"), None);
    assert!(all_packages().contains(&Package::PunctuationSectionsBasic));
}

#[test]
fn presets_and_bundles() {
    let (pk, p) = expand_preset("english_caps").expect("preset");
    assert_eq!(pk, &[Package::LatinAsciiUpper]);
    assert_eq!(p.case_mode, Some("CapsOnly"));
    assert_eq!(p.german_sharp_s_uppercase, Some("SS"));
    assert!(expand_preset("nope").is_none());
    assert!(presets().iter().any(|p| p.name == "kana_full"));
    assert_eq!(bundle_by_name("numbers_all"), Some(Bundle::Digits));
    assert_eq!(bundle_by_name("everything"), Some(Bundle::All));
    assert_eq!(packages_of_bundle(Bundle::Kana), vec![Package::Hiragana, Package::Katakana]);
    assert_eq!(packages_of_bundle(Bundle::All).len(), all_packages().len());
}

#[test]
fn selection_passes_and_warnings() {
    let sel = select_packages(&s(&["english_caps"]), &s(&["spanish.core.upper"])).ok().expect("selection");
    assert_eq!(sel.packages, vec![Package::LatinAsciiUpper, Package::LatinAsciiUpper, Package::SpanishCoreUpper]);
    assert!(sel.warnings.is_empty());
    let sel2 = select_packages(&s(&["kana_all"]), &s(&[])).ok().expect("bundle");
    assert_eq!(sel2.packages, vec![Package::Hiragana, Package::Katakana]);
    assert_eq!(sel2.warnings, s(&["unknown preset 'kana_all'"]));
}

#[test]
fn selection_errors() {
    match select_packages(&s(&["bogus"]), &s(&[])) {
        Err(BuildError::UnknownPreset(n)) => assert_eq!(n, "bogus"),
        _ => panic!("expected unknown preset"),
    }
    match select_packages(&s(&["english_caps"]), &s(&["nope.pkg"])) {
        Err(BuildError::UnknownPackage(n)) => assert_eq!(n, "nope.pkg"),
        _ => panic!("expected unknown package"),
    }
}

fn opts(mode: &str) -> Options {
    let mut o = Options::default();
    o.case_mode = mode.to_string();
    o
}

#[test]
fn option_defaults() {
    let o = Options::default();
    assert_eq!(o.case_mode, "UpperLower");
    assert!(!o.drop_diacritics);
    assert!(o.language_specific_bridges);
    assert!(!o.signage_translits);
    assert!(o.keep_ligatures);
    assert!(!o.rewrite_with_typographic_ligatures);
    assert_eq!(o.german_sharp_s_uppercase, "ẞ");
}

#[test]
fn token_assembly_case_modes() {
    let pk = vec![Package::LatinAsciiLower, Package::LatinAsciiUpper];
    let caps = assemble_tokens(&pk, &opts("CapsOnly")).ok().expect("caps");
    assert_eq!(caps.len(), 26);
    assert_eq!(caps[0], "A");
    let lower = assemble_tokens(&pk, &opts("LowerOnly")).ok().expect("lower");
    assert_eq!(lower.len(), 26);
    assert_eq!(lower[25], "z");
    let both = assemble_tokens(&pk, &opts("UpperLower")).ok().expect("both");
    assert_eq!(both.len(), 52);
    match assemble_tokens(&pk, &opts("Mixed")) {
        Err(BuildError::InvalidCaseMode(m)) => assert_eq!(m, "Mixed"),
        _ => panic!("expected invalid case mode"),
    }
}

#[test]
fn sharp_s_capital_choice() {
    assert_eq!(to_upper("ß", "ẞ"), "ẞ");
    assert_eq!(to_upper("ß", "SS"), "SS");
    assert_eq!(to_upper("é", "SS"), "É");
}

#[test]
fn token_order_longest_first() {
    let v = s(&["b", "ch", "a", "sch", "ch"]);
    assert_eq!(order_tokens(&v), s(&["sch", "ch", "a", "b"]));
}

#[test]
fn build_from_config_end_to_end() {
    let mut o = opts("CapsOnly");
    o.german_sharp_s_uppercase = "ẞ".to_string();
    let cfg = Config { presets: s(&["english_caps"]), packages: s(&["german.extras.lower"]), options: o };
    let b = build_from_config(&cfg).ok().expect("build");
    assert_eq!(b.tokens.len(), 30);
    assert!(b.tokens.contains(&"ẞ".to_string()));
    assert!(b.tokens.contains(&"Ä".to_string()));
    let sharp = ("ß".to_string(), "ẞ".to_string());
    assert_eq!(b.rewrites.iter().filter(|r| **r == sharp).count(), 1);
    assert!(b.rewrites.contains(&("a".to_string(), "A".to_string())));
    assert!(b.rewrites.contains(&("ä".to_string(), "Ä".to_string())));
    assert!(b.rewrites.iter().all(|r| !b.tokens.contains(&r.0)));
    assert!(b.warnings.is_empty());
    let cfg2 = Config { presets: s(&[]), packages: s(&["latin.ascii.upper"]), options: { let mut o = opts("UpperLower"); o.german_sharp_s_uppercase = "SS".to_string(); o } };
    let b2 = build_from_config(&cfg2).ok().expect("build2");
    assert_eq!(b2.warnings, s(&["german_sharp_s_uppercase=SS has no effect unless case_mode=CapsOnly"]));
    assert!(b2.rewrites.contains(&("a".to_string(), "A".to_string())));
    assert!(b2.rewrites.contains(&("ĸ".to_string(), "K".to_string())));
    assert!(b2.rewrites.contains(&("À".to_string(), "A".to_string())));
    assert!(b2.rewrites.contains(&("\u{0410}".to_string(), "A".to_string())));
    assert!(!b2.rewrites.iter().any(|r| r.0 == "A"));
}

#[test]
fn tokenizer_max_munch_and_rewrites() {
    let lex = lex_of(&["a", "b", "c", "ch", "h"], &[("x", "ch"), ("q", "")]);
    let alpha = lexicon_alphabet(&lex).unwrap();
    assert_eq!(alpha.symbols().len(), 5);
    assert_eq!(alpha.symbols()[0], 'a');
    assert_eq!(alpha.symbols()[3], '\u{F0000}');
    assert_eq!(regularize_name(&lex, "chab"), "\u{F0000}ab");
    assert_eq!(regularize_name(&lex, "cxh"), "c\u{F0000}h");
    assert_eq!(regularize_name(&lex, "aqz"), "a");
    assert_eq!(regularize_name(&lex, ""), "");
}

#[test]
fn conf_lines_parse() {
    let lines = s(&["# comment", "cubes = cubes.txt", "words: a.txt, b.txt ,", "sentences s1.txt", "Color = red", "  "]);
    let (c, unknown) = parse_conf_lines(&lines).ok().expect("conf");
    assert_eq!(c.cubes_path, Some("cubes.txt".to_string()));
    assert_eq!(c.word_paths, s(&["a.txt", "b.txt"]));
    assert_eq!(c.sentence_paths, s(&["s1.txt"]));
    assert_eq!(unknown, vec![("color".to_string(), 5)]);
}

#[test]
fn conf_errors() {
    match parse_conf_lines(&s(&["words = a.txt"])) {
        Err(ConfError::MissingCubes) => {}
        _ => panic!("expected missing cubes"),
    }
    match parse_conf_lines(&s(&["cubes=x", "justakey"])) {
        Err(ConfError::BadLine(n, l)) => {
            assert_eq!(n, 2);
            assert_eq!(l, "justakey");
        }
        _ => panic!("expected bad line"),
    }
}

fn ab_lex() -> (Lexicon, Alphabet) {
    let lex = lex_of(&["a", "b", "ch"], &[]);
    let alpha = lexicon_alphabet(&lex).unwrap();
    (lex, alpha)
}

#[test]
fn js_cubes_parse() {
    let (lex, alpha) = ab_lex();
    let (m, n) = parse_cubes_jsconst(&lex, &alpha, "const CUBES = [['a','b'], [\"ch\", 'a']];").ok().expect("cubes");
    assert_eq!(n, 2);
    assert_eq!(m, vec![0b11, 0b01, 0b10]);
    let (cubes, nested) = scan_js_cubes("x = [['a', 'b\\'c'], []]").expect("scan");
    assert!(!nested);
    assert_eq!(cubes, vec![s(&["a", "b'c"]), vec![]]);
}

#[test]
fn js_cubes_errors() {
    let (lex, alpha) = ab_lex();
    assert!(matches!(parse_cubes_jsconst(&lex, &alpha, "no array"), Err(CubeError::NoArray)));
    assert!(matches!(parse_cubes_jsconst(&lex, &alpha, "[]"), Err(CubeError::NoCubes)));
    assert!(matches!(parse_cubes_jsconst(&lex, &alpha, "[[[ 'a' ]]]"), Err(CubeError::Nested)));
    match parse_cubes_jsconst(&lex, &alpha, "[['a'], ['ab']]") {
        Err(CubeError::BadFace(j, t)) => {
            assert_eq!(j, 1);
            assert_eq!(t, "ab");
        }
        _ => panic!("expected bad face"),
    }
}

#[test]
fn pythonic_cubes_parse() {
    let (lex, alpha) = ab_lex();
    let (m, used, skipped) = parse_cubes_pythonic(&lex, &alpha, "cubes = [set(\"ab\"), set('ch'), set('a\")]", 26).ok().expect("sets");
    assert_eq!(used, 2);
    assert_eq!(skipped, 1);
    assert_eq!(m, vec![0b01, 0b01, 0b10]);
    assert!(matches!(parse_cubes_pythonic(&lex, &alpha, "nothing here", 26), Err(CubeError::NoSets)));
}

#[test]
fn roman_numeral_filter() {
    let words = s(&["xiv", "mcmxc", "mix", "word", "iiii", "mmmmmcm", "ivx", ""]);
    assert_eq!(remove_roman_numerals(words), s(&["word", "mmmmmcm", "ivx"]));
}

#[test]
fn long_and_blocked_filter() {
    let words = s(&["short", "toolongword", "bad", "ok"]);
    assert_eq!(remove_long_words(words, 5, &s(&["bad"])), s(&["short", "ok"]));
}

#[test]
fn noise_heuristics() {
    assert!(looks_noisy("aaaaab"));
    assert!(!looks_noisy("aaaab"));
    assert!(looks_noisy("abababab"));
    assert!(looks_noisy("abcabcabc"));
    assert!(looks_noisy("zxxxq"));
    assert!(looks_noisy("chcoho"));
    assert!(looks_noisy("queueing"));
    assert!(looks_noisy("kekeke"));
    assert!(!looks_noisy("hello"));
    assert!(!looks_noisy(""));
}

#[test]
fn noisy_words_sorted_unique() {
    let words = s(&["zzzzzz", "hello", "aaaaaa", "zzzzzz", ""]);
    assert_eq!(find_noisy_words(&words), s(&["aaaaaa", "zzzzzz"]));
}

#[test]
fn string_order() {
    assert!(str_lt("ab", "b"));
    assert!(str_lt("a", "ab"));
    assert!(!str_lt("b", "ab"));
    assert!(!str_lt("x", "x"));
    assert!(str_lt("z", "é"));
}

#[test]
fn index_selection_parse() {
    assert_eq!(parse_indices("1 3-5, 12", 10), vec![1, 3, 4, 5]);
    assert_eq!(parse_indices("7-5,2 2", 10), vec![2, 5, 6, 7]);
    assert_eq!(parse_indices("0 x 4-y -3 +2", 10), vec![2]);
    assert_eq!(parse_indices("   ", 10), Vec::<usize>::new());
    assert_eq!(parse_indices("9-99999999999999999999999", 10), Vec::<usize>::new());
}

#[test]
fn repair_command_parse() {
    assert!(matches!(parse_repair_command("  ", 5, 3), RepairCommand::Confirm));
    assert!(matches!(parse_repair_command("MORE", 5, 3), RepairCommand::More(1005)));
    assert!(matches!(parse_repair_command("+sweeps=42", 5, 3), RepairCommand::SetSweeps(42)));
    assert!(matches!(parse_repair_command("sweeps=x", 5, 3), RepairCommand::BadSweeps));
    assert!(matches!(parse_repair_command("retry", 5, 3), RepairCommand::SeedBump));
    assert!(matches!(parse_repair_command("Seed=-7", 5, 3), RepairCommand::SetSeed(-7)));
    assert!(matches!(parse_repair_command("+seed=abc", 5, 3), RepairCommand::BadSeed));
    assert!(matches!(parse_repair_command("mode?", 5, 3), RepairCommand::ListModes));
    assert!(matches!(parse_repair_command("mode=Elastic", 5, 3), RepairCommand::SetMode(RepairMode::Elastic)));
    match parse_repair_command("3 1-2 9", 5, 3) {
        RepairCommand::Remove(ix) => assert_eq!(ix, vec![1, 2, 3]),
        _ => panic!("expected removal"),
    }
}

#[test]
fn integer_parsers() {
    assert_eq!(parse_usize(&"+12".chars().collect()), Some(12));
    assert_eq!(parse_usize(&"".chars().collect()), None);
    assert_eq!(parse_usize(&"+".chars().collect()), None);
    assert_eq!(parse_usize(&"1a".chars().collect()), None);
    assert_eq!(parse_i64(&"-9223372036854775808".chars().collect()), Some(i64::MIN));
    assert_eq!(parse_i64(&"9223372036854775808".chars().collect()), None);
    assert_eq!(parse_i64(&"+5".chars().collect()), Some(5));
}


#[test]
fn session_rounds() {
    let r = Round { sweeps: 100, seed: 7, mode: RepairMode::Balanced, stats_dirty: false, warm_start: false };
    let (n, more) = next_round(r, &RoundEvent::Verified);
    assert!(!more);
    assert_eq!(n.seed, 7);
    let (n, more) = next_round(r, &RoundEvent::Misses);
    assert!(more && n.warm_start);
    let (n, _) = next_round(r, &RoundEvent::ForcedActive);
    assert_eq!(n.seed, 8);
    let top = Round { seed: i64::MAX, ..r };
    assert_eq!(next_round(top, &RoundEvent::ForcedActive).0.seed, i64::MIN);
    let (n, more) = next_round(r, &RoundEvent::Answered(RepairAction::Remove(vec!["x".to_string()]), 100, RepairMode::Elastic));
    assert!(more && n.stats_dirty);
    assert_eq!(n.mode, RepairMode::Elastic);
    let (n, _) = next_round(r, &RoundEvent::Answered(RepairAction::SeedBump, 1100, RepairMode::Balanced));
    assert_eq!((n.seed, n.sweeps), (8, 1100));
    let (n, _) = next_round(r, &RoundEvent::Answered(RepairAction::SeedSet(-3), 100, RepairMode::Balanced));
    assert_eq!(n.seed, -3);
    let (_, more) = next_round(r, &RoundEvent::Answered(RepairAction::Nothing, 100, RepairMode::Balanced));
    assert!(!more);
}

#[test]
fn yes_answers() {
    assert!(is_yes("y"));
    assert!(is_yes("YES"));
    assert!(!is_yes("yep"));
    assert!(!is_yes(""));
}

#[test]
fn word_list_cleanup() {
    assert_eq!(canonical_words(&s(&["b", "", "a", "b"])), s(&["a", "b"]));
    assert_eq!(remove_words(&s(&["b", "a", "c", "a"]), &s(&["a"])), s(&["b", "c"]));
}

#[test]
fn only_hangul_jamo_has_two_names() {
    assert_eq!(package_by_name("hangul.jamo"), Some(Package::HangulJamoAll));
    assert_eq!(package_by_name("hangul.jamo.all"), Some(Package::HangulJamoAll));
    assert_eq!(package_by_name("hangul.jamo.L"), Some(Package::HangulJamoL));
}

#[test]
fn repair_help_names_parse_back() {
    let h = alphaword_blocks::types::repair_mode_help();
    for (name, mode) in [("balanced", RepairMode::Balanced), ("high_first", RepairMode::HighFirst), ("elastic", RepairMode::Elastic)] {
        assert!(h.contains(name));
        assert_eq!(RepairMode::normalize(name), mode);
    }
}

#[test]
fn distinct_tokens_get_distinct_symbols() {
    let lex = build_lexicon(&s(&["a", "ch", "b", "sh"]), &vec![]);
    let a = lexicon_alphabet(&lex).unwrap();
    for i in 0..a.symbols().len() {
        for j in 0..i {
            assert_ne!(a.symbols()[i], a.symbols()[j]);
        }
        assert_eq!(alphaword_blocks::alphabet::char_index(&a, alphaword_blocks::alphabet::index_char(&a, i)), Some(i));
    }
}

#[test]
fn duplicates_keep_their_first_place() {
    assert_eq!(alphaword_blocks::corpus::dedup_words(&s(&["b", "a", "b", "c", "a"])), s(&["b", "a", "c"]));
    assert_eq!(alphaword_blocks::corpus::dedup_words(&s(&[])), s(&[]));
}

#[test]
fn compiled_letters_expand_to_their_tokens() {
    let lex = build_lexicon(&s(&["a", "ch", "b"]), &vec![]);
    let a = lexicon_alphabet(&lex).unwrap();
    let ch = a.symbols()[1];
    let compiled: String = vec!['a', ch, 'x'].into_iter().collect();
    assert_eq!(alphaword_blocks::tokenizer::expand_compiled(&lex, &a, &compiled), "achx");
    assert!(alphaword_blocks::tokenizer::raw_matches_compiled(&lex, &a, "achx", &compiled));
    assert!(!alphaword_blocks::tokenizer::raw_matches_compiled(&lex, &a, "abx", &compiled));
}

#[test]
fn settled_rounds_need_no_answer() {
    assert!(matches!(round_event(0, true, true), Some(RoundEvent::Verified)));
    assert!(matches!(round_event(0, false, false), Some(RoundEvent::Misses)));
    assert!(matches!(round_event(3, true, true), Some(RoundEvent::ForcedActive)));
    assert!(round_event(3, true, false).is_none());
}

#[test]
fn pythonic_sets_allow_spaces_and_need_letters() {
    let (lex, alpha) = ab_lex();
    let (_, used, skipped) = parse_cubes_pythonic(&lex, &alpha, "set( \t'ab'\u{3000})  set ('a') set('') set('a1') SET('b')", 26).ok().expect("sets");
    assert_eq!(used, 1);
    assert_eq!(skipped, 0);
    let (m, used, _) = parse_cubes_pythonic(&lex, &alpha, "set('a')set(\"b\")", 26).ok().expect("sets");
    assert_eq!(used, 2);
    assert_eq!(m[0], 0b01);
}

#[test]
fn js_cube_errors_come_in_text_order() {
    let (lex, alpha) = ab_lex();
    let many = |first: &str, rest: &str| -> String {
        let mut v = vec![format!("['{}']", first)];
        for _ in 1..70 {
            v.push(format!("['{}']", rest));
        }
        format!("[{}]", v.join(", "))
    };
    match parse_cubes_jsconst(&lex, &alpha, &many("ab", "a")) {
        Err(CubeError::BadFace(j, t)) => {
            assert_eq!(j, 0);
            assert_eq!(t, "ab");
        }
        _ => panic!("expected bad face"),
    }
    assert!(matches!(parse_cubes_jsconst(&lex, &alpha, &many("a", "a")), Err(CubeError::TooManyCubes(70))));
    let mut v = vec!["['a']".to_string()];
    for _ in 1..70 {
        v.push("[]".to_string());
    }
    let (m, n) = parse_cubes_jsconst(&lex, &alpha, &format!("[{}]", v.join(", "))).ok().expect("no letters past 64");
    assert_eq!(n, 70);
    assert_eq!(m, vec![0b1, 0, 0]);
}

#[test]
fn blocked_list_lines() {
    let (lex, _alpha) = ab_lex();
    let lines = s(&["  # a comment", "", "  ab  ", "x", "ab", "  ch", "#b"]);
    let got = alphaword_blocks::corpus::blocked_entries(&lex, &lines);
    let ab = regularize_name(&lex, "ab");
    let ch = regularize_name(&lex, "ch");
    assert_eq!(got, vec![ab, ch]);
}
