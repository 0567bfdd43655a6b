use alphaword_blocks::alphabet::Alphabet;
use alphaword_blocks::blockers::{constraint_blockers, first_sorted, is_constraint_blocker};
use alphaword_blocks::assign::{r2_capacity_topups, r3_capacity_topups, Built};
use alphaword_blocks::stats::{active_union2_pub, active_union3_pub, compute_letter_stats_k_seeded};
use alphaword_blocks::types::CubeIndex;

fn abc() -> Alphabet {
    Alphabet::new(vec!['a', 'b', 'c']).unwrap()
}

fn words(v: &[&str]) -> Vec<String> {
    v.iter().map(|x| x.to_string()).collect()
}

#[test]
fn shared_cube_blocks_a_pair() {
    let a = abc();
    let st = compute_letter_stats_k_seeded(&a, &words(&["ab"]), 3, 0);
    let one_cube = CubeIndex { letter_masks: vec![0b1, 0b1, 0], cube_lists: vec![vec![0, 1]] };
    let deg = vec![1, 1, 0];
    assert!(is_constraint_blocker(&a, "ab", &one_cube, &st, 3, &deg));
    assert!(!is_constraint_blocker(&a, "a", &one_cube, &st, 3, &deg));
    assert!(is_constraint_blocker(&a, "c", &one_cube, &st, 3, &deg));
    let two_cubes = CubeIndex { letter_masks: vec![0b01, 0b10, 0], cube_lists: vec![vec![0], vec![1]] };
    assert!(!is_constraint_blocker(&a, "ab", &two_cubes, &st, 3, &deg));
    assert!(!is_constraint_blocker(&a, "ab", &one_cube, &st, 1, &deg));
}

#[test]
fn letter_count_beyond_degree_blocks() {
    let a = abc();
    let st = compute_letter_stats_k_seeded(&a, &words(&["aab"]), 3, 0);
    let idx = CubeIndex { letter_masks: vec![0b01, 0b10, 0], cube_lists: vec![vec![0], vec![1]] };
    assert!(is_constraint_blocker(&a, "aab", &idx, &st, 3, &vec![1, 1, 0]));
    assert!(!is_constraint_blocker(&a, "ab", &idx, &st, 3, &vec![1, 1, 0]));
}

#[test]
fn blocker_list_is_sorted_unique_and_capped() {
    let a = abc();
    let st = compute_letter_stats_k_seeded(&a, &words(&["ab"]), 3, 0);
    let idx = CubeIndex { letter_masks: vec![0b1, 0b1, 0], cube_lists: vec![vec![0, 1]] };
    let deg = vec![1, 1, 0];
    let list = words(&["c", "ab", "a", "ab"]);
    assert_eq!(constraint_blockers(&a, &list, &idx, &st, 3, 10, &deg), words(&["ab", "c"]));
    assert_eq!(constraint_blockers(&a, &list, &idx, &st, 3, 1, &deg), words(&["ab"]));
    assert_eq!(first_sorted(&words(&["b", "a", "b"]), 5), words(&["a", "b"]));
}

#[test]
fn pair_topups_use_only_key_letters() {
    let a = abc();
    let st = compute_letter_stats_k_seeded(&a, &words(&["ab", "abc"]), 3, 0);
    let mut b = Built::new(3);
    let x = vec![0, 0, 0];
    let need0 = active_union2_pub(&st.r2v, 0, 1, &b.deg);
    r2_capacity_topups(&mut b, &st, &x, &[(0, 1)]);
    assert!(b.union2[0][1] >= active_union2_pub(&st.r2v, 0, 1, &b.deg));
    assert!(b.cubes_present.iter().all(|row| !row[2]));
    if need0 > 0 {
        // both letters are equally far from their maximum and their target: the smaller goes first
        assert!(b.cubes_present[0][0]);
    }
    let placed: usize = b.cubes_present.iter().map(|row| row.iter().filter(|&&p| p).count()).sum();
    let free: usize = b.cap.iter().sum();
    assert_eq!(placed + free, 26 * 6);
    r3_capacity_topups(&mut b, &st, &x, &[(0, 1, 2)]);
    assert!(b.union3[0][1][2] >= active_union3_pub(&st.r3v, 0, 1, 2, &b.deg));
    let placed: usize = b.cubes_present.iter().map(|row| row.iter().filter(|&&p| p).count()).sum();
    let free: usize = b.cap.iter().sum();
    assert_eq!(placed + free, 26 * 6);
}

#[test]
fn pair_need_ignores_letter_order() {
    let a = abc();
    let st = compute_letter_stats_k_seeded(&a, &words(&["ab", "abb", "ca"]), 3, 0);
    for deg in [vec![0, 0, 0], vec![1, 2, 0], vec![3, 3, 3]] {
        for x in 0..3 {
            for y in 0..3 {
                assert_eq!(active_union2_pub(&st.r2v, x, y, &deg), active_union2_pub(&st.r2v, y, x, &deg));
            }
            assert_eq!(active_union2_pub(&st.r2v, x, x, &deg), 0);
        }
    }
}
