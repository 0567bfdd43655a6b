//! Bit-level model of `u64` cube masks: bit `j` of a letter's mask is set
//! exactly when cube `j` carries that letter.

use vstd::prelude::*;

verus! {

/// Bit `j` (0-based, least significant first) of `m` is one.
pub open spec fn has_bit(m: u64, j: int) -> bool {
    0 <= j < 64 && (m >> (j as u64)) & 1u64 == 1u64
}

/// The positions below `limit` at which `m` has a one bit.
pub open spec fn bits_below(m: u64, limit: int) -> Set<int> {
    Set::new(|j: int| 0 <= j < limit && has_bit(m, j))
}

pub proof fn lemma_bit_or(a: u64, b: u64, j: int)
    ensures
        has_bit(a | b, j) == (has_bit(a, j) || has_bit(b, j)),
{
    if 0 <= j < 64 {
        let jj = j as u64;
        assert(((a | b) >> jj) & 1u64 == 1u64 <==> ((a >> jj) & 1u64 == 1u64 || (b >> jj) & 1u64
            == 1u64)) by (bit_vector)
            requires
                jj < 64,
        ;
    }
}

pub proof fn lemma_bit_single(c: u64, j: int)
    requires
        c < 64,
    ensures
        has_bit(1u64 << c, j) == (j == c),
{
    if 0 <= j < 64 {
        let jj = j as u64;
        assert(((1u64 << c) >> jj) & 1u64 == 1u64 <==> jj == c) by (bit_vector)
            requires
                jj < 64,
                c < 64,
        ;
    }
}

pub proof fn lemma_bit_clear(m: u64, c: u64, j: int)
    requires
        c < 64,
    ensures
        has_bit(m & !(1u64 << c), j) == (has_bit(m, j) && j != c),
{
    if 0 <= j < 64 {
        let jj = j as u64;
        assert(((m & !(1u64 << c)) >> jj) & 1u64 == 1u64 <==> ((m >> jj) & 1u64 == 1u64 && jj
            != c)) by (bit_vector)
            requires
                jj < 64,
                c < 64,
        ;
    }
}

pub proof fn lemma_bit_and(a: u64, b: u64, j: int)
    ensures
        has_bit(a & b, j) == (has_bit(a, j) && has_bit(b, j)),
{
    if 0 <= j < 64 {
        let jj = j as u64;
        assert(((a & b) >> jj) & 1u64 == 1u64 <==> ((a >> jj) & 1u64 == 1u64 && (b >> jj) & 1u64
            == 1u64)) by (bit_vector)
            requires
                jj < 64,
        ;
    }
}

/// The lowest set bit of a non-zero mask is its trailing-zero count, and
/// `m & (m - 1)` clears exactly that bit.
pub proof fn lemma_lowest_bit(m: u64)
    requires
        m != 0,
    ensures
        (m.trailing_zeros() as int) < 64,
        has_bit(m, m.trailing_zeros() as int),
        forall|j: int| 0 <= j < m.trailing_zeros() ==> !#[trigger] has_bit(m, j),
        forall|j: int| #[trigger]
            has_bit(m & ((m - 1) as u64), j) == (has_bit(m, j) && j != m.trailing_zeros() as int),
        m & ((m - 1) as u64) < m,
{
    vstd::std_specs::bits::axiom_u64_trailing_zeros(m);
    let t = m.trailing_zeros() as u64;
    assert(t < 64);
    assert forall|j: int| 0 <= j < m.trailing_zeros() implies !#[trigger] has_bit(m, j) by {
        let jj = j as u64;
        assert((m >> jj) & 1u64 == 0u64);
    }
    assert forall|j: int| #[trigger]
        has_bit(m & ((m - 1) as u64), j) == (has_bit(m, j) && j != m.trailing_zeros() as int) by {
        if 0 <= j < 64 {
            let jj = j as u64;
            assert(((m & ((m - 1) as u64)) >> jj) & 1u64 == 1u64 <==> ((m >> jj) & 1u64 == 1u64 && jj
                != t)) by (bit_vector)
                requires
                    jj < 64,
                    t < 64,
                    (m >> t) & 1u64 == 1u64,
                    m << ((64 - t) as u64) == 0,
            ;
        }
    }
    assert(m & ((m - 1) as u64) < m) by (bit_vector)
        requires
            m != 0,
    ;
}

pub proof fn lemma_zero_no_bits(m: u64)
    ensures
        m == 0 <==> forall|j: int| 0 <= j < 64 ==> !#[trigger] has_bit(m, j),
{
    if m == 0 {
        assert forall|j: int| 0 <= j < 64 implies !#[trigger] has_bit(m, j) by {
            let jj = j as u64;
            assert((0u64 >> jj) & 1u64 == 0u64) by (bit_vector);
        }
    } else {
        lemma_lowest_bit(m);
    }
}

/// Two words with the same bits are equal.
pub proof fn lemma_bits_equal(a: u64, b: u64)
    requires
        forall|j: int| 0 <= j < 64 ==> #[trigger] has_bit(a, j) == has_bit(b, j),
    ensures
        a == b,
{
    let x = a ^ b;
    assert forall|j: int| 0 <= j < 64 implies !#[trigger] has_bit(x, j) by {
        let jj = j as u64;
        assert(has_bit(a, j) == has_bit(b, j));
        assert(((a >> jj) & 1u64 == 1u64) == ((b >> jj) & 1u64 == 1u64) ==> ((a ^ b) >> jj) & 1u64 != 1u64) by (bit_vector)
            requires
                jj < 64,
        ;
    }
    lemma_zero_no_bits(x);
    assert(a ^ b == 0u64 ==> a == b) by (bit_vector);
}

pub proof fn lemma_bits_below_finite(m: u64, limit: int)
    requires
        0 <= limit,
    ensures
        bits_below(m, limit).finite(),
        bits_below(m, limit).len() <= limit,
{
    vstd::set_lib::lemma_int_range(0, limit);
    vstd::set_lib::lemma_len_subset(bits_below(m, limit), vstd::set_lib::set_int_range(0, limit));
}

/// The number of one bits in `m`.
pub(crate) fn count_ones(m: u64) -> (r: u32)
    ensures
        r as int == bits_below(m, 64).len(),
{
    let mut c: u32 = 0;
    let mut j: u64 = 0;
    proof {
        assert(bits_below(m, 0) =~= Set::<int>::empty());
    }
    while j < 64
        invariant
            j <= 64,
            c <= j,
            c as int == bits_below(m, j as int).len(),
        decreases 64 - j,
    {
        proof {
            lemma_bits_below_finite(m, j as int);
        }
        let ghost before = bits_below(m, j as int);
        if (m >> j) & 1u64 == 1u64 {
            assert(bits_below(m, j + 1) =~= before.insert(j as int));
            c = c + 1;
        } else {
            assert(bits_below(m, j + 1) =~= before);
        }
        j = j + 1;
    }
    c
}

} // verus!
