use alphaword_blocks::alphabet::{char_index, index_char, letter_counts, letters_of_word, n_letters, present_letters, Alphabet};
use alphaword_blocks::assign::{add_letter, remove_letter, Built};
use alphaword_blocks::hall::hall_certificate_for_word;
use alphaword_blocks::pareto::{dominates_slice, insert_maximal_u8, insert_maximal_vec};
use alphaword_blocks::sorting::sort_lex3;
use alphaword_blocks::types::{coverage_for_tuple, kge_topk_for, ord3, repair_mode_help, topk_for, CubeIndex, RepairMode};
use alphaword_blocks::verify::{build_index_from_masks, can_spell_word, verify_all};

fn abc() -> Alphabet {
    Alphabet::new(vec!['a', 'b', 'c']).unwrap()
}

#[test]
fn alphabet_lookups() {
    let a = abc();
    assert_eq!(n_letters(&a), 3);
    assert_eq!(char_index(&a, 'b'), Some(1));
    assert_eq!(char_index(&a, 'z'), None);
    assert_eq!(index_char(&a, 2), 'c');
}

#[test]
fn word_letters_skip_unknown_scalars() {
    let a = abc();
    assert_eq!(letters_of_word(&a, "cab z"), vec![2, 0, 1]);
    assert_eq!(letter_counts(&a, "abba"), vec![2, 2, 0]);
    assert_eq!(present_letters(&vec![2, 0, 1]), vec![0, 2]);
}

#[test]
fn topk_schedule_values() {
    assert_eq!(topk_for(26, 2), 26);
    assert_eq!(topk_for(26, 3), 26);
    assert_eq!(topk_for(26, 4), 13);
    assert_eq!(topk_for(10, 4), 10);
    assert_eq!(topk_for(26, 6), 8);
    assert_eq!(topk_for(26, 12), 4);
    assert_eq!(topk_for(26, 14), 3);
    assert_eq!(topk_for(26, 15), 26);
    assert_eq!(topk_for(26, 20), 26);
    assert_eq!(topk_for(2, 20), 2);
}

#[test]
fn kge_topk_schedule_values() {
    assert_eq!(kge_topk_for(26, 4), 26);
    assert_eq!(kge_topk_for(26, 7), 26);
    assert_eq!(kge_topk_for(26, 9), 9);
}

#[test]
fn ord3_sorts_three() {
    assert_eq!(ord3(3, 1, 2), (1, 2, 3));
    assert_eq!(ord3(2, 2, 1), (1, 2, 2));
    assert_eq!(ord3(0, 5, 9), (0, 5, 9));
}

#[test]
fn union_coverage_counts_cubes() {
    let idx = CubeIndex { letter_masks: vec![0b011, 0b110, 0], cube_lists: vec![vec![0, 1], vec![1, 2], vec![]] };
    assert_eq!(coverage_for_tuple(&idx, &[0, 1]), 3);
    assert_eq!(coverage_for_tuple(&idx, &[0]), 2);
    assert_eq!(coverage_for_tuple(&idx, &[2]), 0);
}

#[test]
fn repair_mode_names() {
    assert_eq!(RepairMode::normalize("HIGH"), RepairMode::HighFirst);
    assert_eq!(RepairMode::normalize("highfirst"), RepairMode::HighFirst);
    assert_eq!(RepairMode::normalize("Soft"), RepairMode::Elastic);
    assert_eq!(RepairMode::normalize("balance"), RepairMode::Balanced);
    assert_eq!(RepairMode::normalize("whatever"), RepairMode::Balanced);
    assert!(repair_mode_help().contains("balanced"));
    assert!(repair_mode_help().contains("elastic"));
}

#[test]
fn spelling_needs_distinct_cubes() {
    let a = Alphabet::new(vec!['a', 'b']).unwrap();
    let idx = build_index_from_masks(&[0b01, 0b10]);
    assert_eq!(idx.cube_lists[0], vec![0]);
    assert_eq!(idx.cube_lists[1], vec![1]);
    assert!(can_spell_word(&a, "ab", &idx));
    assert!(can_spell_word(&a, "ba", &idx));
    assert!(!can_spell_word(&a, "aa", &idx));
    assert!(can_spell_word(&a, "", &idx));
}

#[test]
fn verify_all_lists_failures() {
    let a = Alphabet::new(vec!['a', 'b']).unwrap();
    let idx = build_index_from_masks(&[0b11, 0b10]);
    let words = vec!["ab".to_string(), "aa".to_string(), "bb".to_string(), "ba".to_string()];
    let (ok, failed) = verify_all(&a, &words, &idx);
    assert!(!ok);
    assert_eq!(failed, vec!["bb".to_string()]);
    let (ok2, failed2) = verify_all(&a, &vec!["ab".to_string()], &idx);
    assert!(ok2);
    assert!(failed2.is_empty());
}

#[test]
fn hall_certificate_for_unspellable_word() {
    let a = Alphabet::new(vec!['a', 'b']).unwrap();
    let masks = vec![0b01u64, 0b10u64];
    assert_eq!(hall_certificate_for_word(&a, "ab", &masks), None);
    let r = hall_certificate_for_word(&a, "aab", &masks);
    let (cert, deficit) = r.expect("certificate");
    assert_eq!(deficit, 1);
    assert!(cert.chars().all(|c| c == 'a'));
    assert_eq!(cert.chars().count(), 2);
}

#[test]
fn pareto_front_insertions() {
    let mut f: Vec<[u8; 2]> = vec![[1, 2]];
    assert!(insert_maximal_u8(&mut f, [2, 3]));
    assert_eq!(f, vec![[2, 3]]);
    assert!(!insert_maximal_u8(&mut f, [1, 1]));
    assert_eq!(f, vec![[2, 3]]);
    assert!(insert_maximal_u8(&mut f, [3, 0]));
    assert_eq!(f, vec![[2, 3], [3, 0]]);
    let mut g: Vec<Vec<u8>> = vec![vec![1, 1, 1]];
    insert_maximal_vec(&mut g, vec![2, 1, 1]);
    assert_eq!(g, vec![vec![2, 1, 1]]);
    insert_maximal_vec(&mut g, vec![0, 0, 1]);
    assert_eq!(g, vec![vec![2, 1, 1]]);
    assert!(dominates_slice(&[2, 1], &[1, 1]));
    assert!(!dominates_slice(&[0, 1], &[1, 1]));
}

#[test]
fn lex3_sort_orders_keys() {
    let mut v = vec![(2u64, 0u64, 1usize), (1, 5, 0), (1, 2, 3), (1, 2, 2)];
    sort_lex3(&mut v);
    assert_eq!(v, vec![(1, 2, 2), (1, 2, 3), (1, 5, 0), (2, 0, 1)]);
}

#[test]
fn add_then_remove_restores_caches() {
    let mut b = Built::new(3);
    add_letter(&mut b, 0, 1);
    assert_eq!(b.deg[1], 1);
    assert!(b.cubes_present[0][1]);
    assert_eq!(b.letter_masks[1], 1);
    add_letter(&mut b, 2, 2);
    assert_eq!(b.union2[1][2], 2);
    remove_letter(&mut b, 2, 2);
    assert_eq!(b.deg[2], 0);
    assert_eq!(b.union2[1][2], 1);
    remove_letter(&mut b, 0, 1);
    let fresh = Built::new(3);
    assert_eq!(b.deg, fresh.deg);
    assert_eq!(b.letter_masks, fresh.letter_masks);
    assert_eq!(b.union2, fresh.union2);
    assert_eq!(b.union3, fresh.union3);
    assert_eq!(b.cubes_present, fresh.cubes_present);
}

#[test]
fn spelling_ignores_letter_order() {
    let a = Alphabet::new(vec!['a', 'b', 'c']).unwrap();
    let idx = CubeIndex { letter_masks: vec![0b011, 0b110, 0], cube_lists: vec![vec![0, 1], vec![1, 2], vec![]] };
    assert_eq!(can_spell_word(&a, "ab", &idx), can_spell_word(&a, "ba", &idx));
    assert_eq!(can_spell_word(&a, "abc", &idx), can_spell_word(&a, "cab", &idx));
    assert_eq!(can_spell_word(&a, "aab", &idx), can_spell_word(&a, "aba", &idx));
}

#[test]
fn add_then_remove_restores_free_faces_too() {
    let mut b = Built::new(3);
    let before_cap = b.cap.clone();
    add_letter(&mut b, 4, 2);
    remove_letter(&mut b, 4, 2);
    assert_eq!(b.cap, before_cap);
    let fresh = Built::new(3);
    assert_eq!(b.cubes_present, fresh.cubes_present);
    assert_eq!(b.letter_masks, fresh.letter_masks);
}

#[test]
fn alphabet_symbols_are_distinct_and_round_trip() {
    assert!(Alphabet::new(vec!['a', 'b', 'a']).is_none());
    let a = Alphabet::new(vec!['x', 'y', 'z']).unwrap();
    for i in 0..n_letters(&a) {
        assert_eq!(char_index(&a, index_char(&a, i)), Some(i));
    }
    assert_eq!(char_index(&a, 'q'), None);
}

#[test]
fn hall_certificate_is_the_alternating_reach() {
    let a = abc();
    // 'a' and 'b' both only on cube 0; 'c' on cubes 1 and 2.
    let masks = vec![0b001, 0b001, 0b110];
    let (cert, deficit) = hall_certificate_for_word(&a, "cabc", &masks).expect("certificate");
    assert_eq!(deficit, 1);
    assert_eq!(cert, "ab");
}
