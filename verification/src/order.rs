//! The order of basis elements is a strict total order on indices.

use vstd::prelude::*;
use crate::algebra::index_precedes;
use crate::bits::{bit, lemma_bit_extensional, lowest_difference, popcount};

verus! {

/// What `lowest_difference` finds: the two indices agree from `from` up to the result,
/// and differ there unless the result is 16.
pub proof fn lemma_lowest_difference(a: u16, b: u16, from: int)
    requires
        0 <= from <= 16,
    ensures
        from <= lowest_difference(a, b, from) <= 16,
        forall|j: int| from <= j < lowest_difference(a, b, from) ==> bit(a, j) == bit(b, j),
        lowest_difference(a, b, from) < 16 ==> bit(a, lowest_difference(a, b, from)) != bit(
            b,
            lowest_difference(a, b, from),
        ),
    decreases 16 - from,
{
    if from < 16 && bit(a, from) == bit(b, from) {
        lemma_lowest_difference(a, b, from + 1);
    }
}

/// A position where the indices differ after agreeing from `from` on is the lowest difference.
pub proof fn lemma_lowest_difference_is(a: u16, b: u16, from: int, d: int)
    requires
        0 <= from <= d < 16,
        forall|j: int| from <= j < d ==> bit(a, j) == bit(b, j),
        bit(a, d) != bit(b, d),
    ensures
        lowest_difference(a, b, from) == d,
    decreases d - from,
{
    if from < d {
        lemma_lowest_difference_is(a, b, from + 1, d);
    }
}

/// No index comes before itself.
pub proof fn lemma_precedes_irreflexive(a: u16)
    ensures
        !index_precedes(a, a),
{
    lemma_lowest_difference(a, a, 0);
}

/// Of two different indices exactly one comes before the other.
pub proof fn lemma_precedes_total(a: u16, b: u16)
    requires
        a != b,
    ensures
        index_precedes(a, b) != index_precedes(b, a),
{
    lemma_lowest_difference(a, b, 0);
    lemma_lowest_difference(b, a, 0);
    let d = lowest_difference(a, b, 0);
    if d == 16 {
        lemma_bit_extensional(a, b);
    } else {
        lemma_lowest_difference_is(b, a, 0, d);
    }
}

/// The order is transitive.
pub proof fn lemma_precedes_transitive(a: u16, b: u16, c: u16)
    requires
        index_precedes(a, b),
        index_precedes(b, c),
    ensures
        index_precedes(a, c),
{
    if popcount(a) == popcount(b) && popcount(b) == popcount(c) {
        lemma_lowest_difference(a, b, 0);
        lemma_lowest_difference(b, c, 0);
        let d1 = lowest_difference(a, b, 0);
        let d2 = lowest_difference(b, c, 0);
        if d1 < d2 {
            lemma_lowest_difference_is(a, c, 0, d1);
        } else {
            lemma_lowest_difference_is(a, c, 0, d2);
        }
    }
}

} // verus!
