//! Geometric algebras and their signed basis elements.

use vstd::prelude::*;
use vstd::arithmetic::power2::pow2;
use vstd::bits::lemma_usize_shl_is_mul;
use std::cmp::Ordering;
use crate::order::{lemma_precedes_irreflexive, lemma_precedes_total, lemma_precedes_transitive};
use crate::bits::{
    bit, lemma_bit_above_bound, lemma_bit_complement, lemma_shift_is_pow2, lowest_difference,
    parity_below, popcount, popcount_below, set_bits, swaps_odd, test_bit,
};

verus! {

/// A bit set of generators: bit `i` is set when generator `e_i` takes part in the element.
pub type BasisElementIndex = u16;

/// A Clifford algebra, given by the squares of its generators.
pub struct GeometricAlgebra<'a> {
    pub generator_squares: &'a [isize],
}

/// A basis element with a sign: `scalar` is `-1`, `0` (cancelled) or `+1`.
#[derive(Clone, Copy, PartialEq, Eq, Structural, Hash, Debug)]
pub struct BasisElement {
    pub scalar: isize,
    pub index: BasisElementIndex,
}

/// `-1` when `negative`, else `+1`.
pub open spec fn sign(negative: bool) -> int {
    if negative {
        -1
    } else {
        1
    }
}

/// Whether every generator square is `-1`, `0` or `+1` and at most 15 generators exist.
pub open spec fn valid_signature(squares: Seq<isize>) -> bool {
    &&& squares.len() <= 15
    &&& forall|i: int| 0 <= i < squares.len() ==> -1 <= #[trigger] squares[i] <= 1
}

/// The product of the squares of the generators below `n` that `a` and `b` share.
pub open spec fn metric(a: u16, b: u16, squares: Seq<isize>, n: int) -> int
    decreases n,
{
    if n <= 0 {
        1
    } else {
        metric(a, b, squares, n - 1) * if bit(a, n - 1) && bit(b, n - 1) {
            squares[n - 1] as int
        } else {
            1
        }
    }
}

/// The order of indices: by grade, then the element that holds the lowest generator
/// on which the two differ comes first.
pub open spec fn index_precedes(a: u16, b: u16) -> bool {
    ||| popcount(a) < popcount(b)
    ||| {
        &&& popcount(a) == popcount(b)
        &&& lowest_difference(a, b, 0) < 16
        &&& bit(a, lowest_difference(a, b, 0))
    }
}

/// The signed product of two basis elements.
pub open spec fn spec_product(a: BasisElement, b: BasisElement, squares: Seq<isize>) -> BasisElement {
    BasisElement {
        scalar: (a.scalar * b.scalar * sign(swaps_odd(a.index, b.index, 16)) * metric(
            a.index,
            b.index,
            squares,
            16,
        )) as isize,
        index: a.index ^ b.index,
    }
}

/// The index of the element that holds exactly the generators that `index` lacks.
pub open spec fn complement(index: u16, dimension: nat) -> u16 {
    (pow2(dimension) - 1 - index) as u16
}

/// The dual: the complementary element, signed so that `x * dual(x)` is the unit
/// pseudoscalar whenever `x` is not cancelled.
pub open spec fn spec_dual(x: BasisElement, dimension: nat) -> BasisElement {
    BasisElement {
        scalar: (x.scalar * sign(swaps_odd(x.index, complement(x.index, dimension), 16))) as isize,
        index: complement(x.index, dimension),
    }
}

/// The canonical basis element with the given index: positive, unless its dual comes
/// before it in the order, in which case it takes the sign of its dual.
pub open spec fn spec_basis_element(index: u16, dimension: nat) -> BasisElement {
    let element = BasisElement { scalar: 1, index };
    let dual = spec_dual(element, dimension);
    if index_precedes(dual.index, index) {
        BasisElement { scalar: dual.scalar, index }
    } else {
        element
    }
}

/// The canonical basis, by ascending index.
pub open spec fn spec_basis(dimension: nat) -> Seq<BasisElement> {
    Seq::new(pow2(dimension), |i: int| spec_basis_element(i as u16, dimension))
}

/// Whether the elements come in strictly ascending order.
pub open spec fn strictly_ordered(elements: Seq<BasisElement>) -> bool {
    forall|i: int, j: int|
        0 <= i < j < elements.len() ==> index_precedes(
            (#[trigger] elements[i]).index,
            (#[trigger] elements[j]).index,
        )
}

/// The product of two scalars out of `-1`, `0` and `+1` is one of them again.
pub proof fn lemma_unit_product(x: int, y: int)
    by (nonlinear_arith)
    requires
        -1 <= x <= 1,
        -1 <= y <= 1,
    ensures
        -1 <= x * y <= 1,
        x * y == 0 <==> (x == 0 || y == 0),
        x * y == 1 <==> (x == y && x != 0),
{
}

/// The metric factor of two elements, one of them of the algebra, is `-1`, `0` or `+1`.
pub proof fn lemma_metric_unit(a: u16, b: u16, squares: Seq<isize>, dimension: int, n: int)
    requires
        valid_signature(squares),
        dimension == squares.len(),
        a < pow2(dimension as nat) || b < pow2(dimension as nat),
    ensures
        -1 <= metric(a, b, squares, n) <= 1,
    decreases n,
{
    if n > 0 {
        lemma_metric_unit(a, b, squares, dimension, n - 1);
        if bit(a, n - 1) && bit(b, n - 1) {
            if n - 1 >= dimension {
                if a < pow2(dimension as nat) {
                    lemma_bit_above_bound(a, dimension, n - 1);
                } else {
                    lemma_bit_above_bound(b, dimension, n - 1);
                }
            }
            lemma_unit_product(metric(a, b, squares, n - 1), squares[n - 1] as int);
        }
    }
}

/// The scalar of a product of well-formed elements is again `-1`, `0` or `+1`.
pub proof fn lemma_product_scalar(a: BasisElement, b: BasisElement, squares: Seq<isize>)
    requires
        valid_signature(squares),
        a.valid_in(squares.len()),
        b.valid_in(squares.len()),
    ensures
        spec_product(a, b, squares).valid_in(squares.len()),
        spec_product(a, b, squares).scalar == a.scalar * b.scalar * sign(
            swaps_odd(a.index, b.index, 16),
        ) * metric(a.index, b.index, squares, 16),
{
    let n = squares.len() as int;
    let m = metric(a.index, b.index, squares, 16);
    lemma_metric_unit(a.index, b.index, squares, n, 16);
    lemma_unit_product(a.scalar as int, b.scalar as int);
    let p = a.scalar * b.scalar;
    let s = sign(swaps_odd(a.index, b.index, 16));
    lemma_unit_product(p, s);
    lemma_unit_product(p * s, m);
    lemma_xor_in_range(a.index, b.index, n);
}

/// The product of two elements of an algebra has its index in that algebra.
pub proof fn lemma_xor_in_range(a: u16, b: u16, dimension: int)
    requires
        0 <= dimension <= 15,
        a < pow2(dimension as nat),
        b < pow2(dimension as nat),
    ensures
        (a ^ b) < pow2(dimension as nat),
{
    lemma_shift_is_pow2(dimension);
    let s = dimension as u16;
    assert((a ^ b) < (1u16 << s)) by (bit_vector)
        requires
            s < 16,
            a < (1u16 << s),
            b < (1u16 << s),
    ;
}

impl<'a> GeometricAlgebra<'a> {
    /// The number of generators.
    pub open spec fn dimension(&self) -> nat {
        self.generator_squares@.len()
    }

    /// At most 15 generators, each squaring to `-1`, `0` or `+1`.
    pub open spec fn well_formed(&self) -> bool {
        valid_signature(self.generator_squares@)
    }

    /// The number of basis elements, `2^n`.
    pub fn basis_size(&self) -> (size: usize)
        requires
            self.dimension() <= 15,
        ensures
            size == pow2(self.dimension()),
            size <= 0x8000,
    {
        let n: usize = self.generator_squares.len();
        proof {
            lemma_shift_is_pow2(n as int);
            lemma_usize_shl_is_mul(1usize, n);
        }
        1usize << n
    }

    /// All `2^n` canonical basis elements, by ascending index.
    pub fn basis(&self) -> (elements: Vec<BasisElement>)
        requires
            self.well_formed(),
        ensures
            elements@ == spec_basis(self.dimension()),
    {
        let size: usize = self.basis_size();
        let mut elements: Vec<BasisElement> = Vec::new();
        let mut index: usize = 0;
        while index < size
            invariant
                self.well_formed(),
                size == pow2(self.dimension()),
                size <= 0x8000,
                index <= size,
                elements@.len() == index,
                forall|i: int|
                    0 <= i < index ==> elements@[i] == spec_basis_element(i as u16, self.dimension()),
            decreases size - index,
        {
            let mut element = BasisElement::from_index(index as u16);
            let dual = element.dual(self);
            if dual.precedes(&element) {
                element.scalar = dual.scalar;
            }
            elements.push(element);
            index += 1;
        }
        assert(elements@ =~= spec_basis(self.dimension()));
        elements
    }

    /// The canonical basis in ascending order: by grade, and within a grade
    /// by the lowest generator on which two elements differ.
    pub fn sorted_basis(&self) -> (elements: Vec<BasisElement>)
        requires
            self.well_formed(),
        ensures
            strictly_ordered(elements@),
            elements@.to_multiset() == spec_basis(self.dimension()).to_multiset(),
    {
        let basis = self.basis();
        proof {
            lemma_shift_is_pow2(self.dimension() as int);
            assert forall|i: int| 0 <= i < basis@.len() implies (#[trigger] basis@[i]).index
                == i by {
                assert(basis@[i] == spec_basis_element(i as u16, self.dimension()));
            }
        }
        sort_elements(&basis)
    }
}

/// Whether no two of the elements share an index.
pub open spec fn distinct_indices(elements: Seq<BasisElement>) -> bool {
    forall|i: int, j: int|
        0 <= i < j < elements.len() ==> (#[trigger] elements[i]).index != (
        #[trigger] elements[j]).index
}

/// Sorts elements with pairwise different indices into ascending order.
pub fn sort_elements(elements: &Vec<BasisElement>) -> (sorted: Vec<BasisElement>)
    requires
        distinct_indices(elements@),
    ensures
        strictly_ordered(sorted@),
        sorted@.to_multiset() == elements@.to_multiset(),
{
    let mut sorted: Vec<BasisElement> = Vec::new();
    let mut taken: usize = 0;
    assert(elements@.take(0) =~= Seq::empty());
    while taken < elements.len()
        invariant
            taken <= elements.len(),
            distinct_indices(elements@),
            strictly_ordered(sorted@),
            sorted@.to_multiset() == elements@.take(taken as int).to_multiset(),
        decreases elements.len() - taken,
    {
        let element = elements[taken];
        let ghost before = sorted@;
        proof {
            broadcast use vstd::seq_lib::group_to_multiset_ensures;

            assert forall|q: int| 0 <= q < before.len() implies (#[trigger] before[q]).index
                != element.index by {
                let x = before[q];
                assert(before.contains(x));
                assert(before.to_multiset().count(x) > 0);
                assert(elements@.take(taken as int).contains(x));
                let k = choose|k: int|
                    0 <= k < elements@.take(taken as int).len() && elements@.take(taken as int)[k]
                        == x;
                assert(elements@[k] == x);
            }
        }
        let mut place: usize = 0;
        while place < sorted.len() && !element.precedes(&sorted[place])
            invariant
                place <= sorted.len(),
                sorted@ == before,
                forall|q: int| 0 <= q < before.len() ==> (#[trigger] before[q]).index != element.index,
                forall|q: int|
                    0 <= q < place ==> index_precedes((#[trigger] sorted@[q]).index, element.index),
            decreases sorted.len() - place,
        {
            proof {
                lemma_precedes_total(element.index, sorted@[place as int].index);
            }
            place += 1;
        }
        sorted.insert(place, element);
        proof {
            broadcast use vstd::seq_lib::group_to_multiset_ensures;

            let after = sorted@;
            assert(after == before.insert(place as int, element));
            before.insert_ensures(place as int, element);
            assert forall|i: int, j: int| 0 <= i < j < after.len() implies index_precedes(
                (#[trigger] after[i]).index,
                (#[trigger] after[j]).index,
            ) by {
                if j < place {
                    assert(after[i] == before[i] && after[j] == before[j]);
                } else if j == place {
                    assert(after[i] == before[i]);
                } else if i < place {
                    assert(after[i] == before[i] && after[j] == before[j - 1]);
                } else if i == place {
                    assert(after[j] == before[j - 1]);
                    if j - 1 > place {
                        assert(index_precedes(before[place as int].index, before[j - 1].index));
                        lemma_precedes_transitive(
                            element.index,
                            before[place as int].index,
                            before[j - 1].index,
                        );
                    }
                } else {
                    assert(after[i] == before[i - 1] && after[j] == before[j - 1]);
                }
            }
            assert(after.remove(place as int) =~= before);
            assert(after.to_multiset().remove(element) == before.to_multiset());
            assert(after.to_multiset().count(element) > 0) by {
                assert(after[place as int] == element);
                assert(after.contains(element));
            }
            assert(after.to_multiset() =~= before.to_multiset().insert(element));
            assert(elements@.take(taken as int + 1) =~= elements@.take(taken as int).push(element));
        }
        taken += 1;
    }
    assert(elements@.take(elements.len() as int) =~= elements@);
    sorted
}

impl BasisElement {
    /// Scalar `-1`, `0` or `+1`, and an index below `2^dimension`.
    pub open spec fn valid_in(&self, dimension: nat) -> bool {
        &&& -1 <= self.scalar <= 1
        &&& self.index < pow2(dimension)
    }

    /// The grade: the number of generators that take part.
    pub open spec fn spec_grade(&self) -> nat {
        popcount(self.index)
    }

    /// The positive element with the given index.
    pub fn from_index(index: BasisElementIndex) -> (element: Self)
        ensures
            element == (BasisElement { scalar: 1, index }),
    {
        Self { scalar: 1, index }
    }

    /// The number of generators that take part in the element.
    pub fn grade(&self) -> (grade: usize)
        ensures
            grade == self.spec_grade(),
            grade <= 16,
    {
        let mut grade: usize = 0;
        let mut i: usize = 0;
        while i < 16
            invariant
                i <= 16,
                grade == popcount_below(self.index, i as int),
                grade <= i,
            decreases 16 - i,
        {
            if test_bit(self.index, i) {
                grade += 1;
            }
            i += 1;
        }
        grade
    }

    /// The generators that take part in the element, ascending.
    pub fn component_bits(&self) -> (generators: Vec<usize>)
        ensures
            generators@ == set_bits(self.index, 16),
    {
        let mut generators: Vec<usize> = Vec::new();
        let mut i: usize = 0;
        while i < 16
            invariant
                i <= 16,
                generators@ == set_bits(self.index, i as int),
            decreases 16 - i,
        {
            if test_bit(self.index, i) {
                generators.push(i);
            }
            i += 1;
        }
        generators
    }

    /// The signed geometric product of two basis elements.
    pub fn product(a: &Self, b: &Self, algebra: &GeometricAlgebra) -> (result: Self)
        requires
            algebra.well_formed(),
            a.valid_in(algebra.dimension()),
            b.valid_in(algebra.dimension()),
        ensures
            result == spec_product(*a, *b, algebra.generator_squares@),
            result.valid_in(algebra.dimension()),
    {
        let ghost squares = algebra.generator_squares@;
        let mut odd_swaps = false;
        let mut odd_below = false;
        let mut shared: isize = 1;
        let mut i: usize = 0;
        while i < 16
            invariant
                i <= 16,
                squares == algebra.generator_squares@,
                valid_signature(squares),
                a.index < pow2(squares.len()),
                b.index < pow2(squares.len()),
                odd_swaps == swaps_odd(a.index, b.index, i as int),
                odd_below == parity_below(b.index, i as int),
                shared == metric(a.index, b.index, squares, i as int),
                -1 <= shared <= 1,
            decreases 16 - i,
        {
            let in_a = test_bit(a.index, i);
            let in_b = test_bit(b.index, i);
            if in_a && odd_below {
                odd_swaps = !odd_swaps;
            }
            if in_a && in_b {
                proof {
                    if i >= squares.len() {
                        lemma_bit_above_bound(a.index, squares.len() as int, i as int);
                    }
                    lemma_unit_product(shared as int, squares[i as int] as int);
                }
                shared = shared * algebra.generator_squares[i];
            }
            if in_b {
                odd_below = !odd_below;
            }
            i += 1;
        }
        proof {
            lemma_unit_product(a.scalar as int, b.scalar as int);
            lemma_unit_product(a.scalar * b.scalar, sign(odd_swaps));
            lemma_unit_product(a.scalar * b.scalar * sign(odd_swaps), shared as int);
            lemma_product_scalar(*a, *b, squares);
        }
        let signs: isize = a.scalar * b.scalar;
        let oriented: isize = if odd_swaps {
            -signs
        } else {
            signs
        };
        assert(oriented == a.scalar * b.scalar * sign(odd_swaps)) by (nonlinear_arith)
            requires
                signs == a.scalar * b.scalar,
                oriented == if odd_swaps {
                    -signs
                } else {
                    signs as int
                },
        ;
        Self { scalar: oriented * shared, index: a.index ^ b.index }
    }

    /// The dual of the element in the given algebra.
    pub fn dual(&self, algebra: &GeometricAlgebra) -> (result: Self)
        requires
            algebra.well_formed(),
            self.valid_in(algebra.dimension()),
        ensures
            result == spec_dual(*self, algebra.dimension()),
            result.valid_in(algebra.dimension()),
    {
        let size: usize = algebra.basis_size();
        let index: u16 = ((size - 1) as u16) - self.index;
        let partner = Self { scalar: self.scalar, index };
        let product = Self::product(self, &partner, algebra);
        proof {
            let n = algebra.dimension() as int;
            assert forall|i: int| 0 <= i < 16 implies !(bit(self.index, i) && bit(index, i)) by {
                lemma_bit_complement(self.index, n, i);
            }
            lemma_metric_one(self.index, index, algebra.generator_squares@, 16);
            lemma_product_scalar(*self, partner, algebra.generator_squares@);
            let s = self.scalar as int;
            let o = sign(swaps_odd(self.index, index, 16));
            assert(s * (s * s * o * 1) == s * o) by (nonlinear_arith)
                requires
                    -1 <= s <= 1,
                    o == 1 || o == -1,
            ;
            lemma_unit_product(s, o);
        }
        Self { scalar: self.scalar * product.scalar, index }
    }

    /// Compares two elements in the order of basis elements, which looks at indices
    /// alone: elements with the same index are equal in it, whatever their scalars.
    pub fn cmp(&self, other: &Self) -> (result: Ordering)
        ensures
            result == Ordering::Equal <==> self.index == other.index,
            result == Ordering::Less <==> index_precedes(self.index, other.index),
            result == Ordering::Greater <==> index_precedes(other.index, self.index),
    {
        proof {
            lemma_precedes_irreflexive(self.index);
            if self.index != other.index {
                lemma_precedes_total(self.index, other.index);
            }
        }
        if self.index == other.index {
            Ordering::Equal
        } else if self.precedes(other) {
            Ordering::Less
        } else {
            Ordering::Greater
        }
    }

    /// Whether `self` comes strictly before `other` in the order of basis elements.
    pub fn precedes(&self, other: &Self) -> (result: bool)
        ensures
            result == index_precedes(self.index, other.index),
    {
        let own_grade = self.grade();
        let other_grade = other.grade();
        if own_grade != other_grade {
            return own_grade < other_grade;
        }
        let mut i: usize = 0;
        while i < 16
            invariant
                i <= 16,
                popcount(self.index) == popcount(other.index),
                lowest_difference(self.index, other.index, 0) == lowest_difference(
                    self.index,
                    other.index,
                    i as int,
                ),
            decreases 16 - i,
        {
            let own = test_bit(self.index, i);
            if own != test_bit(other.index, i) {
                return own;
            }
            i += 1;
        }
        false
    }
}

/// The dual of a well-formed element is well formed.
pub proof fn lemma_dual_valid(x: BasisElement, dimension: nat)
    requires
        dimension <= 15,
        x.valid_in(dimension),
    ensures
        spec_dual(x, dimension).valid_in(dimension),
        x.scalar != 0 ==> spec_dual(x, dimension).scalar != 0,
{
    lemma_bit_complement(x.index, dimension as int, 0);
    lemma_unit_product(
        x.scalar as int,
        sign(swaps_odd(x.index, complement(x.index, dimension), 16)),
    );
}

/// Every element of the canonical basis has a scalar of `-1` or `+1` and its own index.
pub proof fn lemma_basis_valid(dimension: nat)
    requires
        dimension <= 15,
    ensures
        spec_basis(dimension).len() == pow2(dimension),
        forall|i: int|
            0 <= i < spec_basis(dimension).len() ==> {
                &&& (#[trigger] spec_basis(dimension)[i]).valid_in(dimension)
                &&& spec_basis(dimension)[i].scalar != 0
                &&& spec_basis(dimension)[i].index == i
            },
{
    lemma_shift_is_pow2(dimension as int);
    assert forall|i: int| 0 <= i < spec_basis(dimension).len() implies {
        &&& (#[trigger] spec_basis(dimension)[i]).valid_in(dimension)
        &&& spec_basis(dimension)[i].scalar != 0
        &&& spec_basis(dimension)[i].index == i
    } by {
        lemma_dual_valid(BasisElement { scalar: 1, index: i as u16 }, dimension);
    }
}

/// Elements that share no generator have metric factor one.
pub proof fn lemma_metric_one(a: u16, b: u16, squares: Seq<isize>, n: int)
    requires
        forall|i: int| 0 <= i < 16 ==> !(bit(a, i) && bit(b, i)),
        n <= 16,
    ensures
        metric(a, b, squares, n) == 1,
    decreases n,
{
    if n > 0 {
        lemma_metric_one(a, b, squares, n - 1);
    }
}

/// Whether the squares are those of an algebra: at most 15 generators, each squaring
/// to `-1`, `0` or `+1`.
pub fn is_signature(squares: &[isize]) -> (valid: bool)
    ensures
        valid == valid_signature(squares@),
{
    if squares.len() > 15 {
        return false;
    }
    let mut i: usize = 0;
    while i < squares.len()
        invariant
            i <= squares.len(),
            forall|k: int| 0 <= k < i ==> -1 <= #[trigger] squares@[k] <= 1,
        decreases squares.len() - i,
    {
        if squares[i] < -1 || squares[i] > 1 {
            return false;
        }
        i += 1;
    }
    true
}

} // verus!
