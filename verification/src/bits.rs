//! Bit-level model of basis-element indices.
//!
//! An index is a set of generators: generator `i` takes part in the element exactly when
//! bit `i` of the index is set. Everything the algebra needs from an index is phrased here
//! over the predicate [`bit`], so that the proofs of the algebraic laws never have to look
//! at machine words again.

use vstd::prelude::*;
use vstd::arithmetic::power2::{pow2, lemma2_to64, lemma_pow2_strictly_increases};
use vstd::bits::lemma_u16_shl_is_mul;

verus! {

/// Whether generator `i` takes part in the element with index `x`.
pub open spec fn bit(x: u16, i: int) -> bool {
    0 <= i < 16 && (x >> (i as u16)) & 1u16 == 1u16
}

/// Number of generators below `n` that take part in `x`.
pub open spec fn popcount_below(x: u16, n: int) -> nat
    decreases n,
{
    if n <= 0 {
        0
    } else {
        popcount_below(x, n - 1) + if bit(x, n - 1) { 1nat } else { 0nat }
    }
}

/// The grade of an index: how many generators take part in it.
pub open spec fn popcount(x: u16) -> nat {
    popcount_below(x, 16)
}

/// Whether an odd number of generators below `n` take part in `x`.
pub open spec fn parity_below(x: u16, n: int) -> bool
    decreases n,
{
    if n <= 0 {
        false
    } else {
        parity_below(x, n - 1) != bit(x, n - 1)
    }
}

/// Parity of the number of pairs `(i, j)` with `i` in `a`, `j` in `b` and `j < i < n`:
/// the transpositions needed to bring the generators of `a` followed by those of `b`
/// into ascending order.
pub open spec fn swaps_odd(a: u16, b: u16, n: int) -> bool
    decreases n,
{
    if n <= 0 {
        false
    } else {
        swaps_odd(a, b, n - 1) != (bit(a, n - 1) && parity_below(b, n - 1))
    }
}

/// The generators of `x` below `n`, in ascending order.
pub open spec fn set_bits(x: u16, n: int) -> Seq<usize>
    decreases n,
{
    if n <= 0 {
        Seq::empty()
    } else if bit(x, n - 1) {
        set_bits(x, n - 1).push((n - 1) as usize)
    } else {
        set_bits(x, n - 1)
    }
}

/// The lowest generator on which `a` and `b` differ, searching from `from`; 16 if none.
pub open spec fn lowest_difference(a: u16, b: u16, from: int) -> int
    decreases 16 - from,
{
    if from >= 16 {
        16
    } else if bit(a, from) != bit(b, from) {
        from
    } else {
        lowest_difference(a, b, from + 1)
    }
}

/// An exclusive or holds the generators that exactly one of its operands holds.
pub proof fn lemma_bit_xor(a: u16, b: u16, i: int)
    requires
        0 <= i < 16,
    ensures
        bit(a ^ b, i) == (bit(a, i) != bit(b, i)),
{
    let k = i as u16;
    assert((((a ^ b) >> k) & 1u16 == 1u16) == (((a >> k) & 1u16 == 1u16) != ((b >> k) & 1u16
        == 1u16))) by (bit_vector)
        requires
            k < 16,
    ;
}

/// A conjunction holds the generators that both of its operands hold.
pub proof fn lemma_bit_and(a: u16, b: u16, i: int)
    requires
        0 <= i < 16,
    ensures
        bit(a & b, i) == (bit(a, i) && bit(b, i)),
{
    let k = i as u16;
    assert((((a & b) >> k) & 1u16 == 1u16) == (((a >> k) & 1u16 == 1u16) && ((b >> k) & 1u16
        == 1u16))) by (bit_vector)
        requires
            k < 16,
    ;
}

/// `1 << n` is the `n`-th power of two.
pub proof fn lemma_shift_is_pow2(n: int)
    requires
        0 <= n < 16,
    ensures
        (1u16 << (n as u16)) == pow2(n as nat),
        pow2(n as nat) <= 0x8000,
{
    lemma2_to64();
    if n < 15 {
        lemma_pow2_strictly_increases(n as nat, 15);
    }
    lemma_u16_shl_is_mul(1u16, n as u16);
}

/// An index below `2^n` holds no generator from `n` upwards.
pub proof fn lemma_bit_above_bound(x: u16, n: int, i: int)
    requires
        0 <= n < 16,
        x < pow2(n as nat),
        n <= i,
    ensures
        !bit(x, i),
{
    lemma_shift_is_pow2(n);
    if i < 16 {
        let k = i as u16;
        let s = n as u16;
        assert((x >> k) & 1u16 == 0u16) by (bit_vector)
            requires
                s < 16,
                s <= k < 16,
                x < (1u16 << s),
        ;
    }
}

/// Complementing an index within `n` generators flips exactly the bits below `n`.
pub proof fn lemma_bit_complement(x: u16, n: int, i: int)
    requires
        0 <= n < 16,
        x < pow2(n as nat),
        0 <= i < 16,
    ensures
        pow2(n as nat) - 1 - x < pow2(n as nat),
        bit((pow2(n as nat) - 1 - x) as u16, i) == (i < n && !bit(x, i)),
{
    lemma_shift_is_pow2(n);
    let k = i as u16;
    let s = n as u16;
    let m = 1u16 << s;
    assert(((((m - 1 - x) as u16) >> k) & 1u16 == 1u16) == (k < s && !((x >> k) & 1u16 == 1u16)))
        by (bit_vector)
        requires
            s < 16,
            k < 16,
            m == 1u16 << s,
            x < m,
    ;
}

/// Two indices with the same generators are the same index.
pub proof fn lemma_bit_extensional(a: u16, b: u16)
    requires
        forall|i: int| 0 <= i < 16 ==> bit(a, i) == bit(b, i),
    ensures
        a == b,
{
    assert(bit(a, 0) == bit(b, 0));
    assert(bit(a, 1) == bit(b, 1));
    assert(bit(a, 2) == bit(b, 2));
    assert(bit(a, 3) == bit(b, 3));
    assert(bit(a, 4) == bit(b, 4));
    assert(bit(a, 5) == bit(b, 5));
    assert(bit(a, 6) == bit(b, 6));
    assert(bit(a, 7) == bit(b, 7));
    assert(bit(a, 8) == bit(b, 8));
    assert(bit(a, 9) == bit(b, 9));
    assert(bit(a, 10) == bit(b, 10));
    assert(bit(a, 11) == bit(b, 11));
    assert(bit(a, 12) == bit(b, 12));
    assert(bit(a, 13) == bit(b, 13));
    assert(bit(a, 14) == bit(b, 14));
    assert(bit(a, 15) == bit(b, 15));
    assert(a == b) by (bit_vector)
        requires
            ((a >> 0u16) & 1u16 == 1u16) == ((b >> 0u16) & 1u16 == 1u16),
            ((a >> 1u16) & 1u16 == 1u16) == ((b >> 1u16) & 1u16 == 1u16),
            ((a >> 2u16) & 1u16 == 1u16) == ((b >> 2u16) & 1u16 == 1u16),
            ((a >> 3u16) & 1u16 == 1u16) == ((b >> 3u16) & 1u16 == 1u16),
            ((a >> 4u16) & 1u16 == 1u16) == ((b >> 4u16) & 1u16 == 1u16),
            ((a >> 5u16) & 1u16 == 1u16) == ((b >> 5u16) & 1u16 == 1u16),
            ((a >> 6u16) & 1u16 == 1u16) == ((b >> 6u16) & 1u16 == 1u16),
            ((a >> 7u16) & 1u16 == 1u16) == ((b >> 7u16) & 1u16 == 1u16),
            ((a >> 8u16) & 1u16 == 1u16) == ((b >> 8u16) & 1u16 == 1u16),
            ((a >> 9u16) & 1u16 == 1u16) == ((b >> 9u16) & 1u16 == 1u16),
            ((a >> 10u16) & 1u16 == 1u16) == ((b >> 10u16) & 1u16 == 1u16),
            ((a >> 11u16) & 1u16 == 1u16) == ((b >> 11u16) & 1u16 == 1u16),
            ((a >> 12u16) & 1u16 == 1u16) == ((b >> 12u16) & 1u16 == 1u16),
            ((a >> 13u16) & 1u16 == 1u16) == ((b >> 13u16) & 1u16 == 1u16),
            ((a >> 14u16) & 1u16 == 1u16) == ((b >> 14u16) & 1u16 == 1u16),
            ((a >> 15u16) & 1u16 == 1u16) == ((b >> 15u16) & 1u16 == 1u16),
    ;
}

/// Tests one bit of an index.
pub fn test_bit(x: u16, i: usize) -> (r: bool)
    requires
        i < 16,
    ensures
        r == bit(x, i as int),
{
    let k: u16 = i as u16;
    (x >> k) & 1u16 == 1u16
}

} // verus!
