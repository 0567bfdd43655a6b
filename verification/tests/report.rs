use alphaword_blocks::misses::miss_groups;
use alphaword_blocks::types::CubeIndex;
use alphaword_blocks::alphabet::Alphabet;
use alphaword_blocks::report::{
    count_table, letter_leaders, pair_requirement_rows, rank_words, requirement_rows, triple_requirement_rows,
    words_meeting,
};

fn abc() -> Alphabet {
    Alphabet::new(vec!['a', 'b', 'c']).unwrap()
}

fn words(v: &[&str]) -> Vec<String> {
    v.iter().map(|x| x.to_string()).collect()
}

#[test]
fn leaders_per_letter() {
    let ws = words(&["ab", "aab", "baa", "c"]);
    let l = letter_leaders(&abc(), &ws);
    assert_eq!(l.len(), 3);
    assert_eq!(l[0], (2, words(&["aab", "baa"])));
    assert_eq!(l[1], (1, words(&["aab", "ab", "baa"])));
    assert_eq!(l[2], (1, words(&["c"])));
    let none = letter_leaders(&abc(), &words(&["ab"]));
    assert_eq!(none[2], (0, Vec::<String>::new()));
}

#[test]
fn maximal_rows_in_report_order() {
    let rows = requirement_rows(&vec![vec![1, 1], vec![2, 1], vec![1, 2], vec![2, 1], vec![0, 3]]);
    assert_eq!(rows, vec![vec![2, 1], vec![1, 2], vec![0, 3]]);
    assert_eq!(pair_requirement_rows(&vec![[1, 0], [1, 1]]), vec![vec![1, 1]]);
    assert_eq!(triple_requirement_rows(&vec![[1, 1, 1], [2, 0, 0]]), vec![vec![1, 1, 1], vec![2, 0, 0]]);
}

#[test]
fn words_meeting_a_requirement() {
    let ws = words(&["ab", "aab", "baa", "c"]);
    let t = count_table(&abc(), &ws);
    assert_eq!(t[1], vec![2, 1, 0]);
    assert_eq!(words_meeting(&t, &ws, &vec![0, 1], &vec![2, 1]), words(&["aab", "baa"]));
    assert_eq!(words_meeting(&t, &ws, &vec![2], &vec![1]), words(&["c"]));
}

#[test]
fn ranking_by_alone_then_total() {
    let r1 = vec![words(&["x"]), words(&["x", "y"])];
    let r2 = vec![words(&["y"]), words(&["y", "z"])];
    let r3 = vec![words(&["z"])];
    let ranked = rank_words(&r1, &r2, &r3);
    let order: Vec<&str> = ranked.iter().map(|s| s.word.as_str()).collect();
    assert_eq!(order, vec!["y", "z", "x"]);
    assert_eq!((ranked[0].alone2, ranked[0].seen1, ranked[0].seen2), (1, 1, 2));
    assert_eq!((ranked[1].alone3, ranked[1].seen2, ranked[1].seen3), (1, 1, 1));
    assert_eq!((ranked[2].alone1, ranked[2].seen1), (1, 2));
}

#[test]
fn misses_grouped_by_certificate() {
    let a = abc();
    let idx = CubeIndex { letter_masks: vec![0b01, 0b01, 0b10], cube_lists: vec![vec![0, 1], vec![2]] };
    let certs = words(&["ab", "aab", "ba", "c", ""]);
    let g = miss_groups(&a, &certs, &idx);
    assert_eq!(g.len(), 2);
    assert_eq!(g[0].key, vec![0, 1]);
    assert_eq!((g[0].need, g[0].have, g[0].gap, g[0].count), (3, 1, 2, 3));
    assert_eq!(g[1].key, vec![2]);
    assert_eq!((g[1].need, g[1].have, g[1].gap, g[1].count), (1, 1, 0, 1));
}
