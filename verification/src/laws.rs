//! Algebraic laws of the signed product and of the dual.

use vstd::prelude::*;
use vstd::arithmetic::power2::pow2;
use crate::algebra::{
    complement, lemma_metric_one, lemma_product_scalar, lemma_unit_product,
    metric, sign, spec_dual, spec_product, valid_signature, BasisElement,
};
use crate::algebra::spec_basis;
use crate::product::{
    inner_term, lemma_filter_membership, lemma_product_table_terms, outer_term,
    spec_geometric_product, ProductTerm,
};
use crate::bits::{
    bit, lemma_bit_above_bound, lemma_bit_and, lemma_bit_complement, lemma_bit_xor, lemma_shift_is_pow2, parity_below, popcount, popcount_below, swaps_odd,
};

verus! {

/// The parity of the generators below `n` is that of their number.
pub proof fn lemma_parity_is_popcount(x: u16, n: int)
    ensures
        parity_below(x, n) == (popcount_below(x, n) % 2 == 1),
    decreases n,
{
    if n > 0 {
        lemma_parity_is_popcount(x, n - 1);
    }
}

/// The parity of an exclusive or is the exclusive or of the parities.
pub proof fn lemma_parity_below_xor(b: u16, c: u16, n: int)
    requires
        n <= 16,
    ensures
        parity_below(b ^ c, n) == (parity_below(b, n) != parity_below(c, n)),
    decreases n,
{
    if n > 0 {
        lemma_parity_below_xor(b, c, n - 1);
        lemma_bit_xor(b, c, n - 1);
    }
}

/// Swaps past an exclusive or are, in parity, the swaps past each of its operands.
pub proof fn lemma_swaps_xor_right(a: u16, b: u16, c: u16, n: int)
    requires
        n <= 16,
    ensures
        swaps_odd(a, b ^ c, n) == (swaps_odd(a, b, n) != swaps_odd(a, c, n)),
    decreases n,
{
    if n > 0 {
        lemma_swaps_xor_right(a, b, c, n - 1);
        lemma_parity_below_xor(b, c, n - 1);
    }
}

/// Swaps of an exclusive or are, in parity, the swaps of each of its operands.
pub proof fn lemma_swaps_xor_left(a: u16, b: u16, c: u16, n: int)
    requires
        n <= 16,
    ensures
        swaps_odd(a ^ b, c, n) == (swaps_odd(a, c, n) != swaps_odd(b, c, n)),
    decreases n,
{
    if n > 0 {
        lemma_swaps_xor_left(a, b, c, n - 1);
        lemma_bit_xor(a, b, n - 1);
    }
}

proof fn lemma_regroup(x: int, f: int, y: int, g: int)
    by (nonlinear_arith)
    ensures
        (x * f) * (y * g) == (x * y) * (f * g),
{
}

/// Each generator contributes its square the same number of times to `(a b) c` and `a (b c)`.
pub proof fn lemma_metric_associative(a: u16, b: u16, c: u16, squares: Seq<isize>, n: int)
    requires
        n <= 16,
    ensures
        metric(a, b, squares, n) * metric(a ^ b, c, squares, n) == metric(b, c, squares, n)
            * metric(a, b ^ c, squares, n),
    decreases n,
{
    if n > 0 {
        lemma_metric_associative(a, b, c, squares, n - 1);
        lemma_bit_xor(a, b, n - 1);
        lemma_bit_xor(b, c, n - 1);
        let i = n - 1;
        let s = squares[i] as int;
        let f1 = if bit(a, i) && bit(b, i) { s } else { 1 };
        let f2 = if bit(a ^ b, i) && bit(c, i) { s } else { 1 };
        let g1 = if bit(b, i) && bit(c, i) { s } else { 1 };
        let g2 = if bit(a, i) && bit(b ^ c, i) { s } else { 1 };
        assert(f1 * f2 == g1 * g2);
        lemma_regroup(metric(a, b, squares, i), f1, metric(a ^ b, c, squares, i), f2);
        lemma_regroup(metric(b, c, squares, i), g1, metric(a, b ^ c, squares, i), g2);
    }
}

/// Signs multiply as parities add.
pub proof fn lemma_sign_product(p: bool, q: bool)
    ensures
        sign(p) * sign(q) == sign(p != q),
{
    assert(1 * 1 == 1 && 1 * (-1) == -1 && (-1) * 1 == -1 && (-1) * (-1) == 1) by (nonlinear_arith);
}

proof fn lemma_associate(x: int, y: int, z: int)
    by (nonlinear_arith)
    ensures
        (x * y) * z == x * (y * z),
        (x * y) * z == (x * z) * y,
{
}

proof fn lemma_interleave(p: int, q: int, r: int, s: int)
    by (nonlinear_arith)
    ensures
        ((p * q) * r) * s == (p * r) * (q * s),
{
}

/// Both ways of bracketing a triple product carry the three scalars, the two signs
/// and the two metric factors.
proof fn lemma_triple_scalar(
    sa: int,
    sb: int,
    sc: int,
    s1: int,
    m1: int,
    s2: int,
    m2: int,
    t1: int,
    n1: int,
    t2: int,
    n2: int,
)
    requires
        s1 * s2 == t1 * t2,
        m1 * m2 == n1 * n2,
    ensures
        (sa * sb * s1 * m1) * sc * s2 * m2 == sa * (sb * sc * t1 * n1) * t2 * n2,
{
    let u = sa * sb;
    let w = u * sc;
    // left bracketing
    lemma_associate(u, s1, m1);
    lemma_associate(u, s1 * m1, sc);
    lemma_associate(w, s1 * m1, s2);
    lemma_associate(w, (s1 * m1) * s2, m2);
    lemma_interleave(s1, m1, s2, m2);
    assert((sa * sb * s1 * m1) * sc * s2 * m2 == w * ((s1 * s2) * (m1 * m2)));
    // right bracketing
    let v = sb * sc;
    lemma_associate(v, t1, n1);
    lemma_associate(sa, v, t1 * n1);
    lemma_associate(sa, sb, sc);
    lemma_associate(w, t1 * n1, t2);
    lemma_associate(w, (t1 * n1) * t2, n2);
    lemma_interleave(t1, n1, t2, n2);
    assert(sa * (sb * sc * t1 * n1) * t2 * n2 == w * ((t1 * t2) * (n1 * n2)));
}

/// The signed product is associative: `(a b) c` and `a (b c)` agree in index and scalar.
pub proof fn lemma_product_associative(
    a: BasisElement,
    b: BasisElement,
    c: BasisElement,
    squares: Seq<isize>,
)
    requires
        valid_signature(squares),
        a.valid_in(squares.len()),
        b.valid_in(squares.len()),
        c.valid_in(squares.len()),
    ensures
        spec_product(spec_product(a, b, squares), c, squares) == spec_product(
            a,
            spec_product(b, c, squares),
            squares,
        ),
{
    let ab = spec_product(a, b, squares);
    let bc = spec_product(b, c, squares);
    lemma_product_scalar(a, b, squares);
    lemma_product_scalar(b, c, squares);
    lemma_product_scalar(ab, c, squares);
    lemma_product_scalar(a, bc, squares);
    let s1 = sign(swaps_odd(a.index, b.index, 16));
    let s2 = sign(swaps_odd(a.index ^ b.index, c.index, 16));
    let t1 = sign(swaps_odd(b.index, c.index, 16));
    let t2 = sign(swaps_odd(a.index, b.index ^ c.index, 16));
    lemma_swaps_xor_left(a.index, b.index, c.index, 16);
    lemma_swaps_xor_right(a.index, b.index, c.index, 16);
    lemma_sign_product(swaps_odd(a.index, b.index, 16), swaps_odd(a.index ^ b.index, c.index, 16));
    lemma_sign_product(swaps_odd(b.index, c.index, 16), swaps_odd(a.index, b.index ^ c.index, 16));
    assert(s1 * s2 == t1 * t2);
    let m1 = metric(a.index, b.index, squares, 16);
    let m2 = metric(a.index ^ b.index, c.index, squares, 16);
    let n1 = metric(b.index, c.index, squares, 16);
    let n2 = metric(a.index, b.index ^ c.index, squares, 16);
    lemma_metric_associative(a.index, b.index, c.index, squares, 16);
    lemma_triple_scalar(
        a.scalar as int,
        b.scalar as int,
        c.scalar as int,
        s1,
        m1,
        s2,
        m2,
        t1,
        n1,
        t2,
        n2,
    );
    let (x, y, z) = (a.index, b.index, c.index);
    assert((x ^ y) ^ z == x ^ (y ^ z)) by (bit_vector);
}

/// The square of an element is the product of the squares of its generators, negated
/// when the element reverses to its negative.
pub proof fn lemma_product_square(a: BasisElement, squares: Seq<isize>)
    requires
        valid_signature(squares),
        a.valid_in(squares.len()),
    ensures
        spec_product(a, a, squares).index == 0,
        spec_product(a, a, squares).scalar == a.scalar * a.scalar * sign(
            swaps_odd(a.index, a.index, 16),
        ) * metric(a.index, a.index, squares, 16),
{
    lemma_product_scalar(a, a, squares);
    let x = a.index;
    assert(x ^ x == 0) by (bit_vector);
}

/// The complement of an element of the algebra lies in the algebra, shares no generator
/// with the element, and together they hold all generators.
pub proof fn lemma_complement(index: u16, dimension: nat)
    requires
        dimension <= 15,
        index < pow2(dimension),
    ensures
        complement(index, dimension) < pow2(dimension),
        complement(complement(index, dimension), dimension) == index,
        index ^ complement(index, dimension) == pow2(dimension) - 1,
        forall|i: int|
            0 <= i < 16 ==> (#[trigger] bit(complement(index, dimension), i)) == (i < dimension
                && !bit(index, i)),
{
    lemma_shift_is_pow2(dimension as int);
    assert forall|i: int| 0 <= i < 16 implies (#[trigger] bit(complement(index, dimension), i))
        == (i < dimension && !bit(index, i)) by {
        lemma_bit_complement(index, dimension as int, i);
    }
    let s = dimension as u16;
    let m = 1u16 << s;
    assert(index ^ ((m - 1 - index) as u16) == m - 1) by (bit_vector)
        requires
            s < 16,
            m == 1u16 << s,
            index < m,
    ;
}

/// An element that is not cancelled times its dual is the positive unit pseudoscalar.
pub proof fn lemma_dual_product(x: BasisElement, squares: Seq<isize>)
    requires
        valid_signature(squares),
        x.valid_in(squares.len()),
        x.scalar != 0,
    ensures
        spec_dual(x, squares.len()).valid_in(squares.len()),
        spec_product(x, spec_dual(x, squares.len()), squares) == (BasisElement {
            scalar: 1,
            index: (pow2(squares.len()) - 1) as u16,
        }),
{
    let n = squares.len();
    let d = spec_dual(x, n);
    lemma_complement(x.index, n);
    let o = sign(swaps_odd(x.index, d.index, 16));
    lemma_unit_product(x.scalar as int, o);
    lemma_product_scalar(x, d, squares);
    lemma_metric_one(x.index, d.index, squares, 16);
    let s = x.scalar as int;
    assert(s * (s * o) * o * 1 == 1) by (nonlinear_arith)
        requires
            s == 1 || s == -1,
            o == 1 || o == -1,
    ;
}

proof fn lemma_mutual_swaps(x: u16, c: u16, dimension: int, n: int)
    requires
        0 <= n <= 16,
        0 <= dimension <= 15,
        forall|i: int| 0 <= i < 16 ==> (#[trigger] bit(c, i)) == (i < dimension && !bit(x, i)),
        forall|i: int| dimension <= i < 16 ==> !(#[trigger] bit(x, i)),
    ensures
        n <= dimension ==> parity_below(c, n) == ((n % 2 == 1) != parity_below(x, n)),
        n <= dimension ==> (swaps_odd(x, c, n) != swaps_odd(c, x, n)) == (parity_below(x, n) && (
        n % 2 == 0)),
        n >= dimension ==> (swaps_odd(x, c, n) != swaps_odd(c, x, n)) == (parity_below(
            x,
            dimension,
        ) && (dimension % 2 == 0)),
        n >= dimension ==> parity_below(x, n) == parity_below(x, dimension),
    decreases n,
{
    if n > 0 {
        lemma_mutual_swaps(x, c, dimension, n - 1);
        assert(bit(c, n - 1) == (n - 1 < dimension && !bit(x, n - 1)));
        if n - 1 >= dimension {
            assert(!bit(x, n - 1));
        }
    }
}

/// Taking the dual twice gives the element back, negated exactly when the algebra has an
/// even number of generators and the element an odd grade.
pub proof fn lemma_double_dual(x: BasisElement, dimension: nat)
    requires
        dimension <= 15,
        x.valid_in(dimension),
    ensures
        spec_dual(spec_dual(x, dimension), dimension) == (BasisElement {
            scalar: if dimension % 2 == 0 && popcount(x.index) % 2 == 1 {
                (-x.scalar) as isize
            } else {
                x.scalar
            },
            index: x.index,
        }),
{
    let c = complement(x.index, dimension);
    lemma_complement(x.index, dimension);
    assert forall|i: int| dimension <= i < 16 implies !(#[trigger] bit(x.index, i)) by {
        lemma_bit_above_bound(x.index, dimension as int, i);
    }
    lemma_mutual_swaps(x.index, c, dimension as int, 16);
    lemma_parity_is_popcount(x.index, 16);
    let o1 = sign(swaps_odd(x.index, c, 16));
    let o2 = sign(swaps_odd(c, x.index, 16));
    lemma_unit_product(x.scalar as int, o1);
    lemma_sign_product(swaps_odd(x.index, c, 16), swaps_odd(c, x.index, 16));
    let s = x.scalar as int;
    let flipped = dimension % 2 == 0 && popcount(x.index) % 2 == 1;
    assert(o1 * o2 == sign(flipped));
    assert((s * o1) * o2 == s * (o1 * o2)) by (nonlinear_arith);
    assert(s * 1 == s && s * (-1) == -s) by (nonlinear_arith);
    let once = spec_dual(x, dimension);
    assert(once.index == c);
    assert(once.scalar == s * o1);
    assert(complement(c, dimension) == x.index);
    let twice = spec_dual(once, dimension);
    assert(twice.index == x.index);
    assert(twice.scalar == ((s * o1) * o2) as isize);
}

/// In an algebra with an odd number of generators the dual is an involution.
pub proof fn lemma_double_dual_odd(x: BasisElement, dimension: nat)
    requires
        dimension <= 15,
        dimension % 2 == 1,
        x.valid_in(dimension),
    ensures
        spec_dual(spec_dual(x, dimension), dimension) == x,
{
    lemma_double_dual(x, dimension);
}

/// The grade of a product: the shared generators cancel in pairs.
pub proof fn lemma_product_grade(a: u16, b: u16, n: int)
    requires
        n <= 16,
    ensures
        popcount_below(a ^ b, n) + 2 * popcount_below(a & b, n) == popcount_below(a, n)
            + popcount_below(b, n),
    decreases n,
{
    if n > 0 {
        lemma_product_grade(a, b, n - 1);
        lemma_bit_xor(a, b, n - 1);
        lemma_bit_and(a, b, n - 1);
    }
}

/// Shared generators are generators of both factors.
pub proof fn lemma_shared_grade(a: u16, b: u16, n: int)
    requires
        n <= 16,
    ensures
        popcount_below(a & b, n) <= popcount_below(a, n),
        popcount_below(a & b, n) <= popcount_below(b, n),
    decreases n,
{
    if n > 0 {
        lemma_shared_grade(a, b, n - 1);
        lemma_bit_and(a, b, n - 1);
    }
}

/// The product of a vector with an element of grade one or more is either an outer or
/// an inner product, never both: the two projections together give the geometric
/// product of such factors, each entry once.
pub proof fn lemma_vector_product_splits(squares: Seq<isize>, term: ProductTerm)
    requires
        valid_signature(squares),
        spec_geometric_product(squares).contains(term),
        popcount(term.factor_a.index) >= 1,
        popcount(term.factor_b.index) >= 1,
        popcount(term.factor_a.index) == 1 || popcount(term.factor_b.index) == 1,
    ensures
        spec_geometric_product(squares).filter(|t: ProductTerm| outer_term(t)).contains(term)
            != spec_geometric_product(squares).filter(|t: ProductTerm| inner_term(t)).contains(
            term,
        ),
{
    let table = spec_geometric_product(squares);
    let basis = spec_basis(squares.len());
    lemma_product_table_terms(basis, basis, squares, term);
    let a = term.factor_a.index;
    let b = term.factor_b.index;
    assert(term.product.index == a ^ b);
    lemma_product_grade(a, b, 16);
    lemma_shared_grade(a, b, 16);
    assert(outer_term(term) != inner_term(term));
    lemma_filter_membership(table, |t: ProductTerm| outer_term(t), term);
    lemma_filter_membership(table, |t: ProductTerm| inner_term(t), term);
}

/// Every grade projection is part of the geometric product.
pub proof fn lemma_projection_is_part(
    squares: Seq<isize>,
    accepted: spec_fn(ProductTerm) -> bool,
    term: ProductTerm,
)
    requires
        spec_geometric_product(squares).filter(accepted).contains(term),
    ensures
        spec_geometric_product(squares).contains(term),
        term.product == spec_product(term.factor_a, term.factor_b, squares),
{
    let basis = spec_basis(squares.len());
    lemma_filter_membership(spec_geometric_product(squares), accepted, term);
    lemma_product_table_terms(basis, basis, squares, term);
}

/// Swapping the operands changes the parity of the swaps exactly when both have an odd
/// number of generators and share an even number, or share an odd number and one of
/// them has an even number.
pub proof fn lemma_swaps_commuted(a: u16, b: u16, n: int)
    requires
        n <= 16,
    ensures
        (swaps_odd(a, b, n) != swaps_odd(b, a, n)) == ((parity_below(a, n) && parity_below(b, n))
            != parity_below(a & b, n)),
    decreases n,
{
    if n > 0 {
        lemma_swaps_commuted(a, b, n - 1);
        lemma_bit_and(a, b, n - 1);
    }
}

/// The metric factor does not depend on the order of the operands.
pub proof fn lemma_metric_commuted(a: u16, b: u16, squares: Seq<isize>, n: int)
    ensures
        metric(a, b, squares, n) == metric(b, a, squares, n),
    decreases n,
{
    if n > 0 {
        lemma_metric_commuted(a, b, squares, n - 1);
    }
}

/// Two basis elements commute or anticommute: `b a` is `a b`, negated exactly when
/// either both grades are odd or the number of shared generators is odd, but not both.
pub proof fn lemma_product_commutation(a: BasisElement, b: BasisElement, squares: Seq<isize>)
    requires
        valid_signature(squares),
        a.valid_in(squares.len()),
        b.valid_in(squares.len()),
    ensures
        spec_product(b, a, squares).index == spec_product(a, b, squares).index,
        spec_product(b, a, squares).scalar == spec_product(a, b, squares).scalar * sign(
            (popcount(a.index) % 2 == 1 && popcount(b.index) % 2 == 1) != (popcount(
                a.index & b.index,
            ) % 2 == 1),
        ),
{
    let (x, y) = (a.index, b.index);
    assert(x ^ y == y ^ x) by (bit_vector);
    lemma_product_scalar(a, b, squares);
    lemma_product_scalar(b, a, squares);
    lemma_swaps_commuted(x, y, 16);
    lemma_metric_commuted(x, y, squares, 16);
    lemma_parity_is_popcount(x, 16);
    lemma_parity_is_popcount(y, 16);
    lemma_parity_is_popcount(x & y, 16);
    let flipped = (popcount(x) % 2 == 1 && popcount(y) % 2 == 1) != (popcount(x & y) % 2 == 1);
    let forth = sign(swaps_odd(x, y, 16));
    let back = sign(swaps_odd(y, x, 16));
    lemma_sign_product(swaps_odd(x, y, 16), flipped);
    assert(back == forth * sign(flipped));
    let m = metric(x, y, squares, 16);
    let (p, q) = (a.scalar as int, b.scalar as int);
    let f = sign(flipped);
    assert(q * p * (forth * f) * m == (p * q * forth * m) * f) by (nonlinear_arith);
}

} // verus!
