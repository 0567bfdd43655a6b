//! Core types and knobs: repair modes, cube geometry, top-k schedules,
//! the cube index and union coverage.

use vstd::prelude::*;
use crate::bits::{has_bit, bits_below, lemma_bit_or, lemma_bits_below_finite, count_ones};
use crate::text::str_equal;

verus! {

#[derive(Copy, Clone, Debug, PartialEq, Eq, Structural)]
pub enum RepairMode {
    Balanced,
    HighFirst,
    Elastic,
}

/// What `str::to_lowercase` returns for a string: its Unicode lowercase
/// mapping, with the final-sigma rule of that function.
pub uninterp spec fn str_lowercase(s: Seq<char>) -> Seq<char>;

/// Every scalar of `s` is ASCII and none is an upper-case letter.
pub open spec fn ascii_lower_text(s: Seq<char>) -> bool {
    forall|i: int| 0 <= i < s.len() ==> (#[trigger] s[i] as u32) < 128 && !('A' <= s[i] && s[i] <= 'Z')
}

/// `str::to_lowercase`: the result is named by `str_lowercase`; an ASCII
/// string without upper-case letters comes back unchanged (ASCII scalars
/// other than `A`..`Z` are their own lowercase mapping).
#[verifier::external_body]
pub(crate) fn lowercase(s: &str) -> (r: String)
    ensures
        r@ == str_lowercase(s@),
        ascii_lower_text(s@) ==> r@ == s@,
{
    s.to_lowercase()
}

/// The repair mode named by an already lower-cased string; anything
/// unknown falls back to `Balanced`.
pub open spec fn mode_from_lower(s: Seq<char>) -> RepairMode {
    if s == "high"@ || s == "high_first"@ || s == "highfirst"@ {
        RepairMode::HighFirst
    } else if s == "elastic"@ || s == "soft"@ || s == "soft_guard"@ || s == "softguard"@ {
        RepairMode::Elastic
    } else {
        RepairMode::Balanced
    }
}

/// Parse a repair mode from a string that is already lower-case.
pub fn repair_mode_from_lowercase(lower: &str) -> (m: RepairMode)
    ensures
        m == mode_from_lower(lower@),
{
    if str_equal(lower, "high") || str_equal(lower, "high_first") || str_equal(
        lower,
        "highfirst",
    ) {
        RepairMode::HighFirst
    } else if str_equal(lower, "elastic") || str_equal(lower, "soft") || str_equal(
        lower,
        "soft_guard",
    ) || str_equal(lower, "softguard") {
        RepairMode::Elastic
    } else {
        RepairMode::Balanced
    }
}

impl RepairMode {
    /// Parse a repair mode name, case-insensitively; unknown names give `Balanced`.
    pub fn normalize(s: &str) -> (m: RepairMode)
        ensures
            m == mode_from_lower(str_lowercase(s@)),
            ascii_lower_text(s@) ==> m == mode_from_lower(s@),
    {
        let lower = lowercase(s);
        repair_mode_from_lowercase(lower.as_str())
    }
}

pub const REPAIR_MODE_HELP: &'static str = "Available repair modes:
  • balanced   — Protect R1 strictly; optimize R2/R3; gentle high-k pressure (1 high-k step/sweep).
  • high_first — Stronger focus on high-k deficits (3 steps/sweep); still protects R1 strictly.
  • elastic    — Allows small temporary regressions: can dip R1 by 1 and slightly harm R2/R3 during a high-k step.
                 High-k executed before singles each sweep so singles fix the debt quickly.\n";

/// `w` occurs in `h` as a run of consecutive scalars.
pub open spec fn occurs_in(h: Seq<char>, w: Seq<char>) -> bool {
    exists|i: int| 0 <= i && i + w.len() <= h.len() && #[trigger] h.subrange(i, i + w.len()) == w
}

/// The help text names each repair mode, and each name it gives parses
/// back to its mode.
pub proof fn law_help_names_parse()
    ensures
        occurs_in(REPAIR_MODE_HELP@, "balanced"@),
        occurs_in(REPAIR_MODE_HELP@, "high_first"@),
        occurs_in(REPAIR_MODE_HELP@, "elastic"@),
        mode_from_lower("balanced"@) == RepairMode::Balanced,
        mode_from_lower("high_first"@) == RepairMode::HighFirst,
        mode_from_lower("elastic"@) == RepairMode::Elastic,
{
    reveal_strlit("Available repair modes:
  • balanced   — Protect R1 strictly; optimize R2/R3; gentle high-k pressure (1 high-k step/sweep).
  • high_first — Stronger focus on high-k deficits (3 steps/sweep); still protects R1 strictly.
  • elastic    — Allows small temporary regressions: can dip R1 by 1 and slightly harm R2/R3 during a high-k step.
                 High-k executed before singles each sweep so singles fix the debt quickly.\n");
    reveal_strlit("balanced");
    reveal_strlit("high_first");
    reveal_strlit("elastic");
    reveal_strlit("high");
    reveal_strlit("highfirst");
    reveal_strlit("soft");
    reveal_strlit("soft_guard");
    reveal_strlit("softguard");
    let h = REPAIR_MODE_HELP@;
    assert(h.subrange(28, 28int + "balanced"@.len()) =~= "balanced"@);
    assert(h.subrange(128, 128int + "high_first"@.len()) =~= "high_first"@);
    assert(h.subrange(224, 224int + "elastic"@.len()) =~= "elastic"@);
}

/// Help text listing the repair modes.
pub fn repair_mode_help() -> (s: &'static str)
    ensures
        s@ == REPAIR_MODE_HELP@,
{
    REPAIR_MODE_HELP
}

pub const DECOMPOSE_HANGUL: bool = true;

pub const FACES_PER_CUBE: usize = 6;

pub const N_CUBES: usize = 26;

pub const TOTAL_SLOTS: usize = 156;

pub const MAX_K: usize = 20;

pub const KGE_MAXK: usize = 26;

pub open spec fn min_nat(a: int, b: int) -> int {
    if a <= b {
        a
    } else {
        b
    }
}

pub open spec fn max_int(a: int, b: int) -> int {
    if a >= b {
        a
    } else {
        b
    }
}

/// `14i32.saturating_sub(k as i32) as usize`, the fallback width for large k.
pub open spec fn topk_fallback(k: usize) -> int {
    let ki = k as i32;
    let d: i32 = if 14 - ki > i32::MAX {
        i32::MAX
    } else {
        (14 - ki) as i32
    };
    d as usize as int
}

/// How many of a word's most frequent letters take part in k-subsets.
pub open spec fn topk_spec(n: usize, k: usize) -> int {
    if k == 2 || k == 3 {
        n as int
    } else if k == 4 {
        min_nat(n as int, 13)
    } else if k == 5 {
        min_nat(n as int, 11)
    } else if k == 6 {
        min_nat(n as int, 8)
    } else if k == 7 {
        min_nat(n as int, 7)
    } else if k == 8 {
        min_nat(n as int, 6)
    } else if k == 9 || k == 10 {
        min_nat(n as int, 5)
    } else if k == 11 || k == 12 || k == 13 {
        min_nat(n as int, 4)
    } else {
        min_nat(n as int, max_int(3, topk_fallback(k)))
    }
}

/// Top-k width for subsets of size `k` over an alphabet of `n` letters.
pub fn topk_for(n: usize, k: usize) -> (r: usize)
    ensures
        r as int == topk_spec(n, k),
{
    let m: usize = match k {
        2 => return n,
        3 => return n,
        4 => 13,
        5 => 11,
        6 => 8,
        7 => 7,
        8 => 6,
        9 => 5,
        10 => 5,
        11 => 4,
        12 => 4,
        13 => 4,
        _ => {
            let ki = k as i32;
            let d: i32 = match 14i32.checked_sub(ki) {
                Some(d) => d,
                None => i32::MAX,
            };
            let du = d as usize;
            if du > 3 {
                du
            } else {
                3
            }
        },
    };
    if n < m {
        n
    } else {
        m
    }
}

/// Seeding width for distinct-letter subsets of size `k`.
pub fn kge_topk_for(n: usize, k: usize) -> (r: usize)
    ensures
        r == if 4 <= k <= 7 {
            n
        } else {
            k
        },
{
    match k {
        4 | 5 | 6 | 7 => n,
        _ => k,
    }
}

/// For each letter, the cubes that carry it: as a bit mask (bit j = cube j)
/// and as the list of cube numbers.
pub struct CubeIndex {
    pub letter_masks: Vec<u64>,
    pub cube_lists: Vec<Vec<usize>>,
}

impl CubeIndex {
    /// An index over `n` letters with no letter on any cube.
    pub fn empty(n: usize) -> (idx: CubeIndex)
        ensures
            idx.letter_masks@ == Seq::new(n as nat, |i: int| 0u64),
            idx.cube_lists@.len() == n,
            forall|i: int| 0 <= i < n ==> (#[trigger] idx.cube_lists@[i])@.len() == 0,
    {
        let mut masks: Vec<u64> = Vec::new();
        let mut lists: Vec<Vec<usize>> = Vec::new();
        let mut i: usize = 0;
        while i < n
            invariant
                i <= n,
                masks@ == Seq::new(i as nat, |j: int| 0u64),
                lists@.len() == i,
                forall|j: int| 0 <= j < i ==> (#[trigger] lists@[j])@.len() == 0,
            decreases n - i,
        {
            masks.push(0u64);
            lists.push(Vec::new());
            i += 1;
            assert(masks@ =~= Seq::new(i as nat, |j: int| 0u64));
        }
        CubeIndex { letter_masks: masks, cube_lists: lists }
    }
}

/// The cubes (below 64) that carry at least one of the letters in `key`.
pub open spec fn union_cubes(masks: Seq<u64>, key: Seq<usize>) -> Set<int> {
    Set::new(
        |j: int|
            0 <= j < 64 && exists|t: int| 0 <= t < key.len() && has_bit(masks[key[t] as int], j),
    )
}

/// UNION coverage: the number of cubes that carry at least one letter of `key`.
pub fn coverage_for_tuple(idx: &CubeIndex, key: &[usize]) -> (r: i32)
    requires
        forall|t: int| 0 <= t < key@.len() ==> (#[trigger] key@[t] as int) < idx.letter_masks@.len(),
    ensures
        r as int == union_cubes(idx.letter_masks@, key@).len(),
        0 <= r <= 64,
{
    let mut mask: u64 = 0;
    let mut i: usize = 0;
    proof {
        crate::bits::lemma_zero_no_bits(0);
    }
    while i < key.len()
        invariant
            i <= key@.len(),
            forall|t: int| 0 <= t < key@.len() ==> (#[trigger] key@[t] as int) < idx.letter_masks@.len(),
            forall|j: int|
                #[trigger] has_bit(mask, j) == (exists|t: int|
                    0 <= t < i && has_bit(idx.letter_masks@[key@[t] as int], j)),
        decreases key.len() - i,
    {
        let m = idx.letter_masks[key[i]];
        let ghost old_mask = mask;
        mask = mask | m;
        proof {
            assert forall|j: int|
                #[trigger] has_bit(mask, j) == (exists|t: int|
                    0 <= t < i + 1 && has_bit(idx.letter_masks@[key@[t] as int], j)) by {
                lemma_bit_or(old_mask, m, j);
                if has_bit(m, j) {
                    assert(has_bit(idx.letter_masks@[key@[i as int] as int], j));
                }
                if exists|t: int| 0 <= t < i + 1 && has_bit(idx.letter_masks@[key@[t] as int], j) {
                    let t = choose|t: int|
                        0 <= t < i + 1 && has_bit(idx.letter_masks@[key@[t] as int], j);
                    if t < i {
                    }
                }
            }
        }
        i += 1;
    }
    let c = count_ones(mask);
    proof {
        assert(bits_below(mask, 64) =~= union_cubes(idx.letter_masks@, key@));
        lemma_bits_below_finite(mask, 64);
    }
    c as i32
}

/// The three indices in ascending order.
pub open spec fn ord3_spec(a: usize, b: usize, c: usize) -> (usize, usize, usize) {
    let lo = min_nat(a as int, min_nat(b as int, c as int));
    let hi = max_int(a as int, max_int(b as int, c as int));
    (lo as usize, (a + b + c - lo - hi) as usize, hi as usize)
}

/// The three indices in ascending order.
pub fn ord3(a: usize, b: usize, c: usize) -> (r: (usize, usize, usize))
    ensures
        r == ord3_spec(a, b, c),
        r.0 <= r.1 <= r.2,
        r.0 == min_nat(a as int, min_nat(b as int, c as int)),
        r.2 == max_int(a as int, max_int(b as int, c as int)),
        r.0 + r.1 + r.2 == a + b + c,
{
    let mut a = a;
    let mut b = b;
    let mut c = c;
    if a > b {
        let t = a;
        a = b;
        b = t;
    }
    if b > c {
        let t = b;
        b = c;
        c = t;
    }
    if a > b {
        let t = a;
        a = b;
        b = t;
    }
    (a, b, c)
}

} // verus!
