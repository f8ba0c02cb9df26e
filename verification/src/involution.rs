//! Involutions: maps from basis elements to signed basis elements.

use vstd::prelude::*;
use crate::algebra::{
    lemma_unit_product, sign, spec_basis, spec_dual, BasisElement, GeometricAlgebra,
};
use crate::bits::popcount;
use crate::class::MultiVectorClass;

verus! {

/// A map from basis elements to signed basis elements, as the list of its pairs
/// `(argument, image)`.
#[derive(Clone)]
pub struct Involution {
    pub terms: Vec<(BasisElement, BasisElement)>,
}

/// The element, negated where `flip` holds.
pub open spec fn spec_negated(element: BasisElement, flip: bool) -> BasisElement {
    BasisElement { scalar: (element.scalar * sign(flip)) as isize, index: element.index }
}

/// The grades that the automorphism negates: the odd ones.
pub open spec fn automorphism_flips(grade: nat) -> bool {
    grade % 2 == 1
}

/// The grades that the reversal negates: those that leave 2 or 3 modulo 4.
pub open spec fn reversal_flips(grade: nat) -> bool {
    grade % 4 >= 2
}

/// The grades that the conjugation negates: those that leave 1 or 2 modulo 4.
pub open spec fn conjugation_flips(grade: nat) -> bool {
    (grade + 3) % 4 < 2
}

/// The negative of an element.
pub open spec fn spec_neg(element: BasisElement) -> BasisElement {
    spec_negated(element, true)
}

/// The image of an element under the automorphism.
pub open spec fn spec_automorphism(element: BasisElement) -> BasisElement {
    spec_negated(element, automorphism_flips(popcount(element.index)))
}

/// The image of an element under the reversal.
pub open spec fn spec_reversal(element: BasisElement) -> BasisElement {
    spec_negated(element, reversal_flips(popcount(element.index)))
}

/// The image of an element under the conjugation.
pub open spec fn spec_conjugation(element: BasisElement) -> BasisElement {
    spec_negated(element, conjugation_flips(popcount(element.index)))
}

/// The pairs `(element, image)` of a map over the given elements.
pub open spec fn involution_table(
    elements: Seq<BasisElement>,
    image: spec_fn(BasisElement) -> BasisElement,
) -> Seq<(BasisElement, BasisElement)> {
    elements.map_values(|element: BasisElement| (element, image(element)))
}

/// Whether `after` is `before` with its image negated as `grade_negation` answers for
/// the grade of that image.
pub open spec fn negated_term<F: Fn(usize) -> bool>(
    grade_negation: F,
    before: (BasisElement, BasisElement),
    after: (BasisElement, BasisElement),
) -> bool {
    exists|grade: usize, flip: bool|
        {
            &&& grade == popcount(before.1.index)
            &&& #[trigger] call_ensures(grade_negation, (grade,), flip)
            &&& after == (before.0, spec_negated(before.1, flip))
        }
}

/// Whether all pairs hold scalars of `-1`, `0` or `+1` and indices of the algebra.
pub open spec fn valid_terms(terms: Seq<(BasisElement, BasisElement)>, dimension: nat) -> bool {
    forall|i: int|
        0 <= i < terms.len() ==> (#[trigger] terms[i]).0.valid_in(dimension) && terms[i].1.valid_in(
            dimension,
        )
}

fn negates_every_grade(grade: usize) -> (flip: bool)
    ensures
        flip,
{
    true
}

fn automorphism_negates(grade: usize) -> (flip: bool)
    ensures
        flip == automorphism_flips(grade as nat),
{
    grade % 2 == 1
}

fn reversal_negates(grade: usize) -> (flip: bool)
    ensures
        flip == reversal_flips(grade as nat),
{
    grade % 4 >= 2
}

fn conjugation_negates(grade: usize) -> (flip: bool)
    requires
        grade <= 16,
    ensures
        flip == conjugation_flips(grade as nat),
{
    (grade + 3) % 4 < 2
}

impl Involution {
    /// The map that sends every element of the canonical basis to itself.
    pub fn identity(algebra: &GeometricAlgebra) -> (result: Self)
        requires
            algebra.well_formed(),
        ensures
            result.terms@ == involution_table(
                spec_basis(algebra.dimension()),
                |element: BasisElement| element,
            ),
    {
        let basis = algebra.basis();
        let mut terms: Vec<(BasisElement, BasisElement)> = Vec::new();
        let mut i: usize = 0;
        while i < basis.len()
            invariant
                i <= basis.len(),
                terms@.len() == i,
                forall|k: int| 0 <= k < i ==> terms@[k] == (basis@[k], basis@[k]),
            decreases basis.len() - i,
        {
            terms.push((basis[i], basis[i]));
            i += 1;
        }
        assert(terms@ =~= involution_table(basis@, |element: BasisElement| element));
        Self { terms }
    }

    /// The map that sends every element of the class to itself and knows no other.
    pub fn projection(class: &MultiVectorClass) -> (result: Self)
        ensures
            result.terms@ == involution_table(
                class.spec_flat_basis(),
                |element: BasisElement| element,
            ),
    {
        let basis = class.flat_basis();
        let mut terms: Vec<(BasisElement, BasisElement)> = Vec::new();
        let mut i: usize = 0;
        while i < basis.len()
            invariant
                i <= basis.len(),
                terms@.len() == i,
                forall|k: int| 0 <= k < i ==> terms@[k] == (basis@[k], basis@[k]),
            decreases basis.len() - i,
        {
            terms.push((basis[i], basis[i]));
            i += 1;
        }
        assert(terms@ =~= involution_table(basis@, |element: BasisElement| element));
        Self { terms }
    }

    /// The map with the images negated whose grade `grade_negation` accepts.
    pub fn negated<F>(&self, grade_negation: F) -> (result: Self) where F: Fn(usize) -> bool
        requires
            forall|grade: usize| grade <= 16 ==> call_requires(grade_negation, (grade,)),
            forall|i: int| 0 <= i < self.terms@.len() ==> -1 <= (#[trigger] self.terms@[i]).1.scalar <= 1,
        ensures
            result.terms@.len() == self.terms@.len(),
            forall|i: int|
                0 <= i < self.terms@.len() ==> negated_term(
                    grade_negation,
                    self.terms@[i],
                    #[trigger] result.terms@[i],
                ),
    {
        let mut terms: Vec<(BasisElement, BasisElement)> = Vec::new();
        let mut i: usize = 0;
        while i < self.terms.len()
            invariant
                i <= self.terms.len(),
                terms@.len() == i,
                forall|grade: usize| grade <= 16 ==> call_requires(grade_negation, (grade,)),
                forall|k: int|
                    0 <= k < self.terms@.len() ==> -1 <= (#[trigger] self.terms@[k]).1.scalar <= 1,
                forall|k: int|
                    0 <= k < i ==> negated_term(grade_negation, self.terms@[k], #[trigger] terms@[k]),
            decreases self.terms.len() - i,
        {
            let key = self.terms[i].0;
            let value = self.terms[i].1;
            let grade = value.grade();
            let flip = grade_negation(grade);
            let scalar: isize = if flip {
                -value.scalar
            } else {
                value.scalar
            };
            proof {
                assert(scalar == value.scalar * sign(flip)) by (nonlinear_arith)
                    requires
                        scalar == if flip {
                            -value.scalar
                        } else {
                            value.scalar as int
                        },
                        sign(flip) == if flip {
                            -1int
                        } else {
                            1int
                        },
                ;
            }
            terms.push((key, BasisElement { scalar, index: value.index }));
            proof {
                assert(call_ensures(grade_negation, (grade,), flip));
                assert(negated_term(grade_negation, self.terms@[i as int], terms@[i as int]));
            }
            i += 1;
        }
        Self { terms }
    }

    /// The map with every image replaced by its dual.
    pub fn dual(&self, algebra: &GeometricAlgebra) -> (result: Self)
        requires
            algebra.well_formed(),
            forall|i: int|
                0 <= i < self.terms@.len() ==> (#[trigger] self.terms@[i]).1.valid_in(
                    algebra.dimension(),
                ),
        ensures
            result.terms@ == self.terms@.map_values(
                |term: (BasisElement, BasisElement)| (term.0, spec_dual(term.1, algebra.dimension())),
            ),
    {
        let mut terms: Vec<(BasisElement, BasisElement)> = Vec::new();
        let mut i: usize = 0;
        while i < self.terms.len()
            invariant
                i <= self.terms.len(),
                algebra.well_formed(),
                forall|k: int|
                    0 <= k < self.terms@.len() ==> (#[trigger] self.terms@[k]).1.valid_in(
                        algebra.dimension(),
                    ),
                terms@.len() == i,
                forall|k: int|
                    0 <= k < i ==> terms@[k] == (
                        self.terms@[k].0,
                        spec_dual(self.terms@[k].1, algebra.dimension()),
                    ),
            decreases self.terms.len() - i,
        {
            let key = self.terms[i].0;
            let value = self.terms[i].1;
            terms.push((key, value.dual(algebra)));
            i += 1;
        }
        assert(terms@ =~= self.terms@.map_values(
            |term: (BasisElement, BasisElement)| (term.0, spec_dual(term.1, algebra.dimension())),
        ));
        Self { terms }
    }

    /// The five involutions of an algebra, each with its name: negation, automorphism,
    /// reversal, conjugation and dual.
    pub fn involutions(algebra: &GeometricAlgebra) -> (result: Vec<(&'static str, Self)>)
        requires
            algebra.well_formed(),
        ensures
            result@.len() == 5,
            result@[0].0@ == "Neg"@,
            result@[1].0@ == "Automorphism"@,
            result@[2].0@ == "Reversal"@,
            result@[3].0@ == "Conjugation"@,
            result@[4].0@ == "Dual"@,
            result@[0].1.terms@ == involution_table(
                spec_basis(algebra.dimension()),
                |element: BasisElement| spec_neg(element),
            ),
            result@[1].1.terms@ == involution_table(
                spec_basis(algebra.dimension()),
                |element: BasisElement| spec_automorphism(element),
            ),
            result@[2].1.terms@ == involution_table(
                spec_basis(algebra.dimension()),
                |element: BasisElement| spec_reversal(element),
            ),
            result@[3].1.terms@ == involution_table(
                spec_basis(algebra.dimension()),
                |element: BasisElement| spec_conjugation(element),
            ),
            result@[4].1.terms@ == involution_table(
                spec_basis(algebra.dimension()),
                |element: BasisElement| spec_dual(element, algebra.dimension()),
            ),
            forall|k: int|
                0 <= k < 5 ==> valid_terms((#[trigger] result@[k]).1.terms@, algebra.dimension()),
    {
        let ghost basis = spec_basis(algebra.dimension());
        let involution = Self::identity(algebra);
        proof {
            crate::algebra::lemma_basis_valid(algebra.dimension());
            assert forall|i: int| 0 <= i < involution.terms@.len() implies (
            #[trigger] involution.terms@[i]).1.valid_in(algebra.dimension()) by {
                assert(involution.terms@[i].1 == basis[i]);
            }
        }
        let negation = involution.negated(negates_every_grade);
        let automorphism = involution.negated(automorphism_negates);
        let reversal = involution.negated(reversal_negates);
        let conjugation = involution.negated(conjugation_negates);
        let dual = involution.dual(algebra);
        proof {
            assert(negation.terms@ =~= involution_table(
                basis,
                |element: BasisElement| spec_neg(element),
            ));
            assert(automorphism.terms@ =~= involution_table(
                basis,
                |element: BasisElement| spec_automorphism(element),
            ));
            assert(reversal.terms@ =~= involution_table(
                basis,
                |element: BasisElement| spec_reversal(element),
            ));
            assert(conjugation.terms@ =~= involution_table(
                basis,
                |element: BasisElement| spec_conjugation(element),
            ));
            assert(dual.terms@ =~= involution_table(
                basis,
                |element: BasisElement| spec_dual(element, algebra.dimension()),
            ));
            assert forall|i: int| 0 <= i < basis.len() implies {
                &&& (#[trigger] basis[i]).valid_in(algebra.dimension())
                &&& spec_neg(basis[i]).valid_in(algebra.dimension())
                &&& spec_automorphism(basis[i]).valid_in(algebra.dimension())
                &&& spec_reversal(basis[i]).valid_in(algebra.dimension())
                &&& spec_conjugation(basis[i]).valid_in(algebra.dimension())
                &&& spec_dual(basis[i], algebra.dimension()).valid_in(algebra.dimension())
            } by {
                let s = basis[i].scalar as int;
                lemma_unit_product(s, -1);
                lemma_unit_product(s, 1);
                crate::algebra::lemma_dual_valid(basis[i], algebra.dimension());
            }
            assert(valid_terms(negation.terms@, algebra.dimension()));
            assert(valid_terms(automorphism.terms@, algebra.dimension()));
            assert(valid_terms(reversal.terms@, algebra.dimension()));
            assert(valid_terms(conjugation.terms@, algebra.dimension()));
            assert(valid_terms(dual.terms@, algebra.dimension()));
        }
        let mut result: Vec<(&'static str, Self)> = Vec::new();
        result.push(("Neg", negation));
        result.push(("Automorphism", automorphism));
        result.push(("Reversal", reversal));
        result.push(("Conjugation", conjugation));
        result.push(("Dual", dual));
        result
    }
}

/// Negating the same grades twice gives every element back.
pub proof fn lemma_negated_twice(element: BasisElement, flip: bool)
    requires
        -1 <= element.scalar <= 1,
    ensures
        spec_negated(spec_negated(element, flip), flip) == element,
{
    lemma_unit_product(element.scalar as int, sign(flip));
    let s = element.scalar as int;
    let o = sign(flip);
    assert((s * o) * o == s) by (nonlinear_arith)
        requires
            o == 1 || o == -1,
    ;
}

/// Reversal, automorphism and conjugation are involutions: applied twice, each gives
/// every element back.
pub proof fn lemma_involutions_are_involutive(element: BasisElement)
    requires
        -1 <= element.scalar <= 1,
    ensures
        spec_reversal(spec_reversal(element)) == element,
        spec_automorphism(spec_automorphism(element)) == element,
        spec_conjugation(spec_conjugation(element)) == element,
        spec_neg(spec_neg(element)) == element,
        spec_reversal(element).index == element.index,
        spec_automorphism(element).index == element.index,
        spec_conjugation(element).index == element.index,
        spec_neg(element).index == element.index,
{
    lemma_negated_twice(element, reversal_flips(popcount(element.index)));
    lemma_negated_twice(element, automorphism_flips(popcount(element.index)));
    lemma_negated_twice(element, conjugation_flips(popcount(element.index)));
    lemma_negated_twice(element, true);
}

/// The five involutions of an algebra under their names.
pub open spec fn spec_involutions(dimension: nat) -> Seq<
    (Seq<char>, Seq<(BasisElement, BasisElement)>),
> {
    let basis = spec_basis(dimension);
    seq![
        ("Neg"@, involution_table(basis, |element: BasisElement| spec_neg(element))),
        ("Automorphism"@, involution_table(basis, |element: BasisElement| spec_automorphism(element))),
        ("Reversal"@, involution_table(basis, |element: BasisElement| spec_reversal(element))),
        ("Conjugation"@, involution_table(basis, |element: BasisElement| spec_conjugation(element))),
        ("Dual"@, involution_table(basis, |element: BasisElement| spec_dual(element, dimension))),
    ]
}

} // verus!
