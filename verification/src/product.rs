//! Product tables: the signed multiplication table of an algebra and its grade projections.

use vstd::prelude::*;
use crate::algebra::{
    lemma_basis_valid, lemma_dual_valid, spec_basis, spec_dual, spec_product, BasisElement,
    GeometricAlgebra,
};
use crate::bits::popcount;

verus! {

/// One entry of a product table: `factor_a * factor_b = product`.
#[derive(Clone, Copy, PartialEq, Eq, Structural)]
pub struct ProductTerm {
    pub product: BasisElement,
    pub factor_a: BasisElement,
    pub factor_b: BasisElement,
}

/// A product, as the list of its entries that are not cancelled.
#[derive(Clone)]
pub struct Product {
    pub terms: Vec<ProductTerm>,
}

/// The entry of the geometric product for two factors.
pub open spec fn product_term(a: BasisElement, b: BasisElement, squares: Seq<isize>) -> ProductTerm {
    ProductTerm { product: spec_product(a, b, squares), factor_a: a, factor_b: b }
}

/// The entries of `a` with each of `others`, in order, without the cancelled ones.
pub open spec fn product_row(
    a: BasisElement,
    others: Seq<BasisElement>,
    squares: Seq<isize>,
) -> Seq<ProductTerm> {
    others.map_values(|b: BasisElement| product_term(a, b, squares)).filter(
        |term: ProductTerm| term.product.scalar != 0,
    )
}

/// The geometric product table of two lists of elements: row after row.
pub open spec fn product_table(
    a: Seq<BasisElement>,
    b: Seq<BasisElement>,
    squares: Seq<isize>,
) -> Seq<ProductTerm> {
    a.map_values(|x: BasisElement| product_row(x, b, squares)).flatten()
}

/// The entry with all three elements replaced by their duals.
pub open spec fn dual_term(term: ProductTerm, dimension: nat) -> ProductTerm {
    ProductTerm {
        product: spec_dual(term.product, dimension),
        factor_a: spec_dual(term.factor_a, dimension),
        factor_b: spec_dual(term.factor_b, dimension),
    }
}

/// The entries of `terms` that `keep` marks, in order.
pub open spec fn select(terms: Seq<ProductTerm>, keep: Seq<bool>) -> Seq<ProductTerm>
    decreases terms.len(),
{
    if terms.len() == 0 {
        Seq::empty()
    } else {
        let front = select(terms.drop_last(), keep.drop_last());
        if keep.last() {
            front.push(terms.last())
        } else {
            front
        }
    }
}

/// Whether `keep` is an answer of `grade_projection` for the grades of the entry.
pub open spec fn projection_answer<F: Fn(usize, usize, usize) -> bool>(
    grade_projection: F,
    term: ProductTerm,
    keep: bool,
) -> bool {
    exists|r: usize, s: usize, t: usize|
        {
            &&& r == popcount(term.factor_a.index)
            &&& s == popcount(term.factor_b.index)
            &&& t == popcount(term.product.index)
            &&& #[trigger] call_ensures(grade_projection, (r, s, t), keep)
        }
}

/// Whether all three elements of every entry lie in the algebra.
pub open spec fn valid_product_terms(terms: Seq<ProductTerm>, dimension: nat) -> bool {
    forall|i: int|
        0 <= i < terms.len() ==> {
            &&& (#[trigger] terms[i]).product.valid_in(dimension)
            &&& terms[i].factor_a.valid_in(dimension)
            &&& terms[i].factor_b.valid_in(dimension)
        }
}

/// Whether every element lies in the algebra.
pub open spec fn valid_elements(elements: Seq<BasisElement>, dimension: nat) -> bool {
    forall|i: int| 0 <= i < elements.len() ==> (#[trigger] elements[i]).valid_in(dimension)
}

/// Outer product: the grades add.
pub open spec fn outer_term(term: ProductTerm) -> bool {
    popcount(term.product.index) == popcount(term.factor_a.index) + popcount(term.factor_b.index)
}

/// Inner product: the grade is the distance of the grades.
pub open spec fn inner_term(term: ProductTerm) -> bool {
    let r = popcount(term.factor_a.index) as int;
    let s = popcount(term.factor_b.index) as int;
    popcount(term.product.index) == if r >= s {
        r - s
    } else {
        s - r
    }
}

/// Left contraction: the grade of the left factor is taken from that of the right.
pub open spec fn left_contraction_term(term: ProductTerm) -> bool {
    popcount(term.product.index) == popcount(term.factor_b.index) - popcount(term.factor_a.index)
}

/// Right contraction: the grade of the right factor is taken from that of the left.
pub open spec fn right_contraction_term(term: ProductTerm) -> bool {
    popcount(term.product.index) == popcount(term.factor_a.index) - popcount(term.factor_b.index)
}

/// Scalar product: the product has grade zero.
pub open spec fn scalar_term(term: ProductTerm) -> bool {
    popcount(term.product.index) == 0
}

/// Marking the entries that a predicate accepts selects what the predicate filters.
pub proof fn lemma_select_is_filter(
    terms: Seq<ProductTerm>,
    keep: Seq<bool>,
    accepted: spec_fn(ProductTerm) -> bool,
)
    requires
        keep.len() == terms.len(),
        forall|i: int| 0 <= i < terms.len() ==> keep[i] == accepted(#[trigger] terms[i]),
    ensures
        select(terms, keep) == terms.filter(accepted),
    decreases terms.len(),
{
    if terms.len() == 0 {
        assert(terms.filter(accepted) =~= Seq::empty()) by {
            terms.lemma_filter_len(accepted);
        }
    } else {
        let front = terms.drop_last();
        lemma_select_is_filter(front, keep.drop_last(), accepted);
        assert(terms =~= front.push(terms.last()));
        front.lemma_filter_push(terms.last(), accepted);
    }
}

fn outer_grades(r: usize, s: usize, t: usize) -> (keep: bool)
    requires
        r <= 16,
        s <= 16,
    ensures
        keep == (t == r + s),
{
    t == r + s
}

fn inner_grades(r: usize, s: usize, t: usize) -> (keep: bool)
    ensures
        keep == (t == if r >= s {
            r - s
        } else {
            s - r
        }),
{
    if r >= s {
        t == r - s
    } else {
        t == s - r
    }
}

fn left_contraction_grades(r: usize, s: usize, t: usize) -> (keep: bool)
    ensures
        keep == (t == s - r),
{
    s >= r && t == s - r
}

fn right_contraction_grades(r: usize, s: usize, t: usize) -> (keep: bool)
    ensures
        keep == (t == r - s),
{
    r >= s && t == r - s
}

fn scalar_grades(r: usize, s: usize, t: usize) -> (keep: bool)
    ensures
        keep == (t == 0),
{
    t == 0
}

impl Product {
    /// The geometric product table of two lists of elements.
    pub fn new(a: &[BasisElement], b: &[BasisElement], algebra: &GeometricAlgebra) -> (result: Self)
        requires
            algebra.well_formed(),
            valid_elements(a@, algebra.dimension()),
            valid_elements(b@, algebra.dimension()),
        ensures
            result.terms@ == product_table(a@, b@, algebra.generator_squares@),
            valid_product_terms(result.terms@, algebra.dimension()),
    {
        let ghost squares = algebra.generator_squares@;
        let ghost rows = a@.map_values(|x: BasisElement| product_row(x, b@, squares));
        let mut terms: Vec<ProductTerm> = Vec::new();
        let mut i: usize = 0;
        assert(rows.take(0) =~= Seq::empty());
        while i < a.len()
            invariant
                i <= a.len(),
                algebra.well_formed(),
                squares == algebra.generator_squares@,
                valid_elements(a@, algebra.dimension()),
                valid_elements(b@, algebra.dimension()),
                rows == a@.map_values(|x: BasisElement| product_row(x, b@, squares)),
                terms@ == rows.take(i as int).flatten(),
                valid_product_terms(terms@, algebra.dimension()),
            decreases a.len() - i,
        {
            let ghost before = terms@;
            let ghost candidates = b@.map_values(|y: BasisElement| product_term(a@[i as int], y, squares));
            let ghost kept = |term: ProductTerm| term.product.scalar != 0;
            let mut j: usize = 0;
            assert(candidates.take(0) =~= Seq::empty());
            assert(candidates.take(0).filter(kept) =~= Seq::empty()) by {
                candidates.take(0).lemma_filter_len(kept);
            }
            while j < b.len()
                invariant
                    j <= b.len(),
                    i < a.len(),
                    algebra.well_formed(),
                    squares == algebra.generator_squares@,
                    valid_elements(a@, algebra.dimension()),
                    valid_elements(b@, algebra.dimension()),
                    candidates == b@.map_values(
                        |y: BasisElement| product_term(a@[i as int], y, squares),
                    ),
                    kept == |term: ProductTerm| term.product.scalar != 0,
                    terms@ == before + candidates.take(j as int).filter(kept),
                    valid_product_terms(terms@, algebra.dimension()),
                decreases b.len() - j,
            {
                let product = BasisElement::product(&a[i], &b[j], algebra);
                let term = ProductTerm { product, factor_a: a[i], factor_b: b[j] };
                proof {
                    assert(term == candidates[j as int]);
                    assert(candidates.take(j as int + 1) =~= candidates.take(j as int).push(term));
                    candidates.take(j as int).lemma_filter_push(term, kept);
                }
                if product.scalar != 0 {
                    terms.push(term);
                }
                assert(terms@ =~= before + candidates.take(j as int + 1).filter(kept));
                j += 1;
            }
            proof {
                assert(candidates.take(b.len() as int) =~= candidates);
                assert(rows.take(i as int + 1) =~= rows.take(i as int).push(rows[i as int]));
                rows.take(i as int).lemma_flatten_push(rows[i as int]);
            }
            i += 1;
        }
        assert(rows.take(a.len() as int) =~= rows);
        Self { terms }
    }

    /// The entries whose grades `grade_projection` accepts, in order. It is asked with
    /// the grades of the left factor, of the right factor and of the product.
    pub fn projected<F>(&self, grade_projection: F) -> (result: Self) where
        F: Fn(usize, usize, usize) -> bool,

        requires
            forall|r: usize, s: usize, t: usize|
                r <= 16 && s <= 16 && t <= 16 ==> call_requires(grade_projection, (r, s, t)),
        ensures
            exists|keep: Seq<bool>|
                {
                    &&& keep.len() == self.terms@.len()
                    &&& forall|i: int|
                        0 <= i < self.terms@.len() ==> projection_answer(
                            grade_projection,
                            self.terms@[i],
                            #[trigger] keep[i],
                        )
                    &&& result.terms@ == #[trigger] select(self.terms@, keep)
                },
    {
        let mut terms: Vec<ProductTerm> = Vec::new();
        let ghost mut keep: Seq<bool> = Seq::empty();
        let mut i: usize = 0;
        assert(self.terms@.take(0) =~= Seq::empty());
        while i < self.terms.len()
            invariant
                i <= self.terms.len(),
                forall|r: usize, s: usize, t: usize|
                    r <= 16 && s <= 16 && t <= 16 ==> call_requires(grade_projection, (r, s, t)),
                keep.len() == i,
                forall|k: int|
                    0 <= k < i ==> projection_answer(
                        grade_projection,
                        self.terms@[k],
                        #[trigger] keep[k],
                    ),
                terms@ == select(self.terms@.take(i as int), keep),
            decreases self.terms.len() - i,
        {
            let term = self.terms[i];
            let r = term.factor_a.grade();
            let s = term.factor_b.grade();
            let t = term.product.grade();
            let answer = grade_projection(r, s, t);
            if answer {
                terms.push(term);
            }
            proof {
                assert(call_ensures(grade_projection, (r, s, t), answer));
                assert(projection_answer(grade_projection, self.terms@[i as int], answer));
                let longer = keep.push(answer);
                assert(longer.drop_last() =~= keep);
                assert(self.terms@.take(i as int + 1).drop_last() =~= self.terms@.take(i as int));
                keep = longer;
            }
            i += 1;
        }
        assert(self.terms@.take(self.terms.len() as int) =~= self.terms@);
        Self { terms }
    }

    /// The product with every element of every entry replaced by its dual.
    pub fn dual(&self, algebra: &GeometricAlgebra) -> (result: Self)
        requires
            algebra.well_formed(),
            valid_product_terms(self.terms@, algebra.dimension()),
        ensures
            result.terms@ == self.terms@.map_values(
                |term: ProductTerm| dual_term(term, algebra.dimension()),
            ),
    {
        let mut terms: Vec<ProductTerm> = Vec::new();
        let mut i: usize = 0;
        while i < self.terms.len()
            invariant
                i <= self.terms.len(),
                algebra.well_formed(),
                valid_product_terms(self.terms@, algebra.dimension()),
                terms@.len() == i,
                forall|k: int|
                    0 <= k < i ==> terms@[k] == dual_term(self.terms@[k], algebra.dimension()),
            decreases self.terms.len() - i,
        {
            let term = self.terms[i];
            terms.push(
                ProductTerm {
                    product: term.product.dual(algebra),
                    factor_a: term.factor_a.dual(algebra),
                    factor_b: term.factor_b.dual(algebra),
                },
            );
            i += 1;
        }
        assert(terms@ =~= self.terms@.map_values(
            |term: ProductTerm| dual_term(term, algebra.dimension()),
        ));
        Self { terms }
    }

    /// The seven products of an algebra, each with its name: the geometric product and
    /// its grade projections.
    pub fn products(algebra: &GeometricAlgebra) -> (result: Vec<(&'static str, Self)>)
        requires
            algebra.well_formed(),
        ensures
            result@.len() == 7,
            result@[0].0@ == "GeometricProduct"@,
            result@[1].0@ == "RegressiveProduct"@,
            result@[2].0@ == "OuterProduct"@,
            result@[3].0@ == "InnerProduct"@,
            result@[4].0@ == "LeftContraction"@,
            result@[5].0@ == "RightContraction"@,
            result@[6].0@ == "ScalarProduct"@,
            result@[0].1.terms@ == spec_geometric_product(algebra.generator_squares@),
            result@[1].1.terms@ == spec_geometric_product(algebra.generator_squares@).filter(
                |term: ProductTerm| outer_term(term),
            ).map_values(|term: ProductTerm| dual_term(term, algebra.dimension())),
            result@[2].1.terms@ == spec_geometric_product(algebra.generator_squares@).filter(
                |term: ProductTerm| outer_term(term),
            ),
            result@[3].1.terms@ == spec_geometric_product(algebra.generator_squares@).filter(
                |term: ProductTerm| inner_term(term),
            ),
            result@[4].1.terms@ == spec_geometric_product(algebra.generator_squares@).filter(
                |term: ProductTerm| left_contraction_term(term),
            ),
            result@[5].1.terms@ == spec_geometric_product(algebra.generator_squares@).filter(
                |term: ProductTerm| right_contraction_term(term),
            ),
            result@[6].1.terms@ == spec_geometric_product(algebra.generator_squares@).filter(
                |term: ProductTerm| scalar_term(term),
            ),
            forall|k: int|
                0 <= k < 7 ==> valid_product_terms(
                    (#[trigger] result@[k]).1.terms@,
                    algebra.dimension(),
                ),
    {
        let basis = algebra.basis();
        proof {
            lemma_basis_valid(algebra.dimension());
        }
        let product = Self::new(basis.as_slice(), basis.as_slice(), algebra);
        let ghost all = product.terms@;
        let outer = product.projected(outer_grades);
        let inner = product.projected(inner_grades);
        let left = product.projected(left_contraction_grades);
        let right = product.projected(right_contraction_grades);
        let scalar = product.projected(scalar_grades);
        proof {
            lemma_projection(outer_grades, all, outer.terms@, |term: ProductTerm| outer_term(term));
            lemma_projection(inner_grades, all, inner.terms@, |term: ProductTerm| inner_term(term));
            lemma_projection(
                left_contraction_grades,
                all,
                left.terms@,
                |term: ProductTerm| left_contraction_term(term),
            );
            lemma_projection(
                right_contraction_grades,
                all,
                right.terms@,
                |term: ProductTerm| right_contraction_term(term),
            );
            lemma_projection(scalar_grades, all, scalar.terms@, |term: ProductTerm| scalar_term(term));
            lemma_filter_valid(all, |term: ProductTerm| outer_term(term), algebra.dimension());
            lemma_filter_valid(all, |term: ProductTerm| inner_term(term), algebra.dimension());
            lemma_filter_valid(
                all,
                |term: ProductTerm| left_contraction_term(term),
                algebra.dimension(),
            );
            lemma_filter_valid(
                all,
                |term: ProductTerm| right_contraction_term(term),
                algebra.dimension(),
            );
            lemma_filter_valid(all, |term: ProductTerm| scalar_term(term), algebra.dimension());
        }
        let regressive = outer.dual(algebra);
        proof {
            assert forall|i: int| 0 <= i < regressive.terms@.len() implies {
                &&& (#[trigger] regressive.terms@[i]).product.valid_in(algebra.dimension())
                &&& regressive.terms@[i].factor_a.valid_in(algebra.dimension())
                &&& regressive.terms@[i].factor_b.valid_in(algebra.dimension())
            } by {
                let term = outer.terms@[i];
                lemma_dual_valid(term.product, algebra.dimension());
                lemma_dual_valid(term.factor_a, algebra.dimension());
                lemma_dual_valid(term.factor_b, algebra.dimension());
            }
        }
        let mut result: Vec<(&'static str, Self)> = Vec::new();
        result.push(("GeometricProduct", product));
        result.push(("RegressiveProduct", regressive));
        result.push(("OuterProduct", outer));
        result.push(("InnerProduct", inner));
        result.push(("LeftContraction", left));
        result.push(("RightContraction", right));
        result.push(("ScalarProduct", scalar));
        result
    }
}

/// The full multiplication table of the canonical basis.
pub open spec fn spec_geometric_product(squares: Seq<isize>) -> Seq<ProductTerm> {
    product_table(spec_basis(squares.len()), spec_basis(squares.len()), squares)
}

/// A projection whose answers are those of a predicate filters by that predicate.
pub proof fn lemma_projection<F: Fn(usize, usize, usize) -> bool>(
    grade_projection: F,
    terms: Seq<ProductTerm>,
    projected: Seq<ProductTerm>,
    accepted: spec_fn(ProductTerm) -> bool,
)
    requires
        exists|keep: Seq<bool>|
            {
                &&& keep.len() == terms.len()
                &&& forall|i: int|
                    0 <= i < terms.len() ==> projection_answer(
                        grade_projection,
                        terms[i],
                        #[trigger] keep[i],
                    )
                &&& projected == #[trigger] select(terms, keep)
            },
        forall|r: usize, s: usize, t: usize, keep: bool, term: ProductTerm|
            r == popcount(term.factor_a.index) && s == popcount(term.factor_b.index) && t
                == popcount(term.product.index) && #[trigger] call_ensures(
                grade_projection,
                (r, s, t),
                keep,
            ) ==> keep == #[trigger] accepted(term),
    ensures
        projected == terms.filter(accepted),
{
    let keep = choose|keep: Seq<bool>|
        {
            &&& keep.len() == terms.len()
            &&& forall|i: int|
                0 <= i < terms.len() ==> projection_answer(
                    grade_projection,
                    terms[i],
                    #[trigger] keep[i],
                )
            &&& projected == #[trigger] select(terms, keep)
        };
    assert forall|i: int| 0 <= i < terms.len() implies keep[i] == accepted(#[trigger] terms[i]) by {
        assert(projection_answer(grade_projection, terms[i], keep[i]));
    }
    lemma_select_is_filter(terms, keep, accepted);
}

/// What is filtered from valid entries is valid.
pub proof fn lemma_filter_valid(
    terms: Seq<ProductTerm>,
    accepted: spec_fn(ProductTerm) -> bool,
    dimension: nat,
)
    requires
        valid_product_terms(terms, dimension),
    ensures
        valid_product_terms(terms.filter(accepted), dimension),
{
    let kept = terms.filter(accepted);
    assert forall|i: int| 0 <= i < kept.len() implies {
        &&& (#[trigger] kept[i]).product.valid_in(dimension)
        &&& kept[i].factor_a.valid_in(dimension)
        &&& kept[i].factor_b.valid_in(dimension)
    } by {
        terms.lemma_filter_contains_rev(accepted, kept[i]);
        let k = choose|k: int| 0 <= k < terms.len() && terms[k] == kept[i];
        assert(terms[k] == kept[i]);
    }
}

/// Every entry of a product table is the product of its two factors, which come from
/// the two lists, and is not cancelled.
pub proof fn lemma_product_table_terms(
    a: Seq<BasisElement>,
    b: Seq<BasisElement>,
    squares: Seq<isize>,
    term: ProductTerm,
)
    requires
        product_table(a, b, squares).contains(term),
    ensures
        a.contains(term.factor_a),
        b.contains(term.factor_b),
        term == product_term(term.factor_a, term.factor_b, squares),
        term.product.scalar != 0,
    decreases a.len(),
{
    let row_of = |x: BasisElement| product_row(x, b, squares);
    let rows = a.map_values(row_of);
    if a.len() > 0 {
        let front = a.drop_last();
        let last_row = product_row(a.last(), b, squares);
        assert(rows =~= front.map_values(row_of).push(last_row));
        front.map_values(row_of).lemma_flatten_push(last_row);
        let earlier = product_table(front, b, squares);
        assert(product_table(a, b, squares) =~= earlier + last_row);
        let k = choose|k: int|
            0 <= k < product_table(a, b, squares).len() && product_table(a, b, squares)[k] == term;
        if k < earlier.len() {
            assert(earlier[k] == term);
            lemma_product_table_terms(front, b, squares, term);
            let i = choose|i: int| 0 <= i < front.len() && front[i] == term.factor_a;
            assert(a[i] == term.factor_a);
        } else {
            let candidates = b.map_values(|y: BasisElement| product_term(a.last(), y, squares));
            let kept = |term: ProductTerm| term.product.scalar != 0;
            assert(last_row[k - earlier.len()] == term);
            candidates.lemma_filter_pred(kept, k - earlier.len());
            candidates.lemma_filter_contains_rev(kept, term);
            let j = choose|j: int| 0 <= j < candidates.len() && candidates[j] == term;
            assert(b[j] == term.factor_b);
            assert(a[a.len() - 1] == term.factor_a);
        }
    }
}

/// A projection holds an entry exactly when the table holds it and the predicate accepts it.
pub proof fn lemma_filter_membership(
    terms: Seq<ProductTerm>,
    accepted: spec_fn(ProductTerm) -> bool,
    term: ProductTerm,
)
    ensures
        terms.filter(accepted).contains(term) <==> (terms.contains(term) && accepted(term)),
{
    if terms.filter(accepted).contains(term) {
        terms.lemma_filter_contains_rev(accepted, term);
        let k = choose|k: int| 0 <= k < terms.filter(accepted).len() && terms.filter(accepted)[k] == term;
        terms.lemma_filter_pred(accepted, k);
    }
    if terms.contains(term) && accepted(term) {
        let k = choose|k: int| 0 <= k < terms.len() && terms[k] == term;
        terms.lemma_filter_contains(accepted, k);
    }
}

/// Whether no two entries have both the same product and the same left factor, by
/// index: the product and the left factor of an entry tell which entry it is.
pub open spec fn distinct_keys(terms: Seq<ProductTerm>) -> bool {
    forall|i: int, j: int|
        0 <= i < j < terms.len() ==> !same_key(#[trigger] terms[i], #[trigger] terms[j])
}

/// Whether two entries have the same product and the same left factor, by index.
pub open spec fn same_key(first: ProductTerm, second: ProductTerm) -> bool {
    first.product.index == second.product.index && first.factor_a.index == second.factor_a.index
}

/// Filtering keeps entries apart.
pub proof fn lemma_filter_distinct_keys(
    terms: Seq<ProductTerm>,
    accepted: spec_fn(ProductTerm) -> bool,
)
    requires
        distinct_keys(terms),
    ensures
        distinct_keys(terms.filter(accepted)),
    decreases terms.len(),
{
    if terms.len() == 0 {
        terms.lemma_filter_len(accepted);
    } else {
        let front = terms.drop_last();
        let last = terms.last();
        assert(terms =~= front.push(last));
        assert(distinct_keys(front)) by {
            assert forall|i: int, j: int| 0 <= i < j < front.len() implies !same_key(
                #[trigger] front[i],
                #[trigger] front[j],
            ) by {
                assert(front[i] == terms[i] && front[j] == terms[j]);
            }
        }
        lemma_filter_distinct_keys(front, accepted);
        front.lemma_filter_push(last, accepted);
        let kept = front.filter(accepted);
        if accepted(last) {
            let all = kept.push(last);
            assert forall|i: int, j: int| 0 <= i < j < all.len() implies !same_key(
                #[trigger] all[i],
                #[trigger] all[j],
            ) by {
                if j < kept.len() {
                    assert(all[i] == kept[i] && all[j] == kept[j]);
                } else {
                    assert(all[i] == kept[i]);
                    front.lemma_filter_contains_rev(accepted, kept[i]);
                    let k = choose|k: int| 0 <= k < front.len() && front[k] == kept[i];
                    assert(terms[k] == kept[i]);
                    assert(terms[terms.len() - 1] == last);
                }
            }
        }
    }
}

/// Two lists of entries that are apart, and apart from each other, make one.
pub proof fn lemma_joined_distinct_keys(first: Seq<ProductTerm>, second: Seq<ProductTerm>)
    requires
        distinct_keys(first),
        distinct_keys(second),
        forall|i: int, j: int|
            0 <= i < first.len() && 0 <= j < second.len() ==> !same_key(
                #[trigger] first[i],
                #[trigger] second[j],
            ),
    ensures
        distinct_keys(first + second),
{
    let both = first + second;
    assert forall|i: int, j: int| 0 <= i < j < both.len() implies !same_key(
        #[trigger] both[i],
        #[trigger] both[j],
    ) by {
        if j < first.len() {
            assert(both[i] == first[i] && both[j] == first[j]);
        } else if i < first.len() {
            assert(both[i] == first[i] && both[j] == second[j - first.len()]);
        } else {
            assert(both[i] == second[i - first.len()] && both[j] == second[j - first.len()]);
        }
    }
}

/// The products of one element with elements of different indices are apart.
pub proof fn lemma_row_distinct_keys(
    a: BasisElement,
    others: Seq<BasisElement>,
    squares: Seq<isize>,
)
    requires
        forall|i: int, j: int|
            0 <= i < j < others.len() ==> (#[trigger] others[i]).index != (
            #[trigger] others[j]).index,
    ensures
        distinct_keys(product_row(a, others, squares)),
{
    let candidates = others.map_values(|b: BasisElement| product_term(a, b, squares));
    assert forall|i: int, j: int| 0 <= i < j < candidates.len() implies !same_key(
        #[trigger] candidates[i],
        #[trigger] candidates[j],
    ) by {
        let (x, y, z) = (a.index, others[i].index, others[j].index);
        assert(x ^ y == x ^ z ==> y == z) by (bit_vector);
    }
    lemma_filter_distinct_keys(candidates, |term: ProductTerm| term.product.scalar != 0);
}

/// The entries of the multiplication table of the first `count` elements of the
/// canonical basis with the whole basis are apart.
pub proof fn lemma_table_distinct_keys(squares: Seq<isize>, count: int)
    requires
        squares.len() <= 15,
        0 <= count <= spec_basis(squares.len()).len(),
    ensures
        distinct_keys(
            product_table(spec_basis(squares.len()).take(count), spec_basis(squares.len()), squares),
        ),
    decreases count,
{
    let basis = spec_basis(squares.len());
    let row_of = |x: BasisElement| product_row(x, basis, squares);
    lemma_basis_valid(squares.len());
    if count == 0 {
        assert(basis.take(0).map_values(row_of) =~= Seq::empty());
    } else {
        let earlier = product_table(basis.take(count - 1), basis, squares);
        let row = product_row(basis[count - 1], basis, squares);
        lemma_table_distinct_keys(squares, count - 1);
        lemma_row_distinct_keys(basis[count - 1], basis, squares);
        assert(basis.take(count).map_values(row_of) =~= basis.take(count - 1).map_values(
            row_of,
        ).push(row));
        basis.take(count - 1).map_values(row_of).lemma_flatten_push(row);
        assert(product_table(basis.take(count), basis, squares) =~= earlier + row);
        assert forall|i: int, j: int| 0 <= i < earlier.len() && 0 <= j < row.len() implies !same_key(
            #[trigger] earlier[i],
            #[trigger] row[j],
        ) by {
            lemma_product_table_terms(basis.take(count - 1), basis, squares, earlier[i]);
            let front = basis.take(count - 1);
            let u = choose|u: int| 0 <= u < front.len() && front[u] == earlier[i].factor_a;
            assert(basis[u] == earlier[i].factor_a);
            let candidates = basis.map_values(
                |y: BasisElement| product_term(basis[count - 1], y, squares),
            );
            let kept = |term: ProductTerm| term.product.scalar != 0;
            assert(row == candidates.filter(kept));
            candidates.lemma_filter_contains_rev(kept, row[j]);
            let v = choose|v: int| 0 <= v < candidates.len() && candidates[v] == row[j];
            assert(row[j].factor_a == basis[count - 1]);
        }
        lemma_joined_distinct_keys(earlier, row);
    }
}

/// Taking the duals of valid entries keeps them apart.
pub proof fn lemma_dual_distinct_keys(terms: Seq<ProductTerm>, dimension: nat)
    requires
        dimension <= 15,
        distinct_keys(terms),
        valid_product_terms(terms, dimension),
    ensures
        distinct_keys(terms.map_values(|term: ProductTerm| dual_term(term, dimension))),
{
    let duals = terms.map_values(|term: ProductTerm| dual_term(term, dimension));
    crate::bits::lemma_shift_is_pow2(dimension as int);
    assert forall|i: int, j: int| 0 <= i < j < duals.len() implies !same_key(
        #[trigger] duals[i],
        #[trigger] duals[j],
    ) by {
        assert(!same_key(terms[i], terms[j]));
        assert(terms[i].product.valid_in(dimension) && terms[j].product.valid_in(dimension));
        assert(terms[i].factor_a.valid_in(dimension) && terms[j].factor_a.valid_in(dimension));
    }
}

/// The seven products of an algebra under their names.
pub open spec fn spec_products(squares: Seq<isize>) -> Seq<(Seq<char>, Seq<ProductTerm>)> {
    let all = spec_geometric_product(squares);
    seq![
        ("GeometricProduct"@, all),
        (
            "RegressiveProduct"@,
            all.filter(|term: ProductTerm| outer_term(term)).map_values(
                |term: ProductTerm| dual_term(term, squares.len()),
            ),
        ),
        ("OuterProduct"@, all.filter(|term: ProductTerm| outer_term(term))),
        ("InnerProduct"@, all.filter(|term: ProductTerm| inner_term(term))),
        ("LeftContraction"@, all.filter(|term: ProductTerm| left_contraction_term(term))),
        ("RightContraction"@, all.filter(|term: ProductTerm| right_contraction_term(term))),
        ("ScalarProduct"@, all.filter(|term: ProductTerm| scalar_term(term))),
    ]
}

/// The entries of each of the seven products of an algebra are apart.
pub proof fn lemma_products_distinct_keys(squares: Seq<isize>, k: int)
    requires
        crate::algebra::valid_signature(squares),
        0 <= k < 7,
    ensures
        distinct_keys(spec_products(squares)[k].1),
        valid_product_terms(spec_products(squares)[k].1, squares.len()),
{
    let basis = spec_basis(squares.len());
    let all = spec_geometric_product(squares);
    lemma_basis_valid(squares.len());
    lemma_table_distinct_keys(squares, basis.len() as int);
    assert(basis.take(basis.len() as int) =~= basis);
    lemma_table_valid(squares);
    let outer = all.filter(|term: ProductTerm| outer_term(term));
    lemma_filter_distinct_keys(all, |term: ProductTerm| outer_term(term));
    lemma_filter_distinct_keys(all, |term: ProductTerm| inner_term(term));
    lemma_filter_distinct_keys(all, |term: ProductTerm| left_contraction_term(term));
    lemma_filter_distinct_keys(all, |term: ProductTerm| right_contraction_term(term));
    lemma_filter_distinct_keys(all, |term: ProductTerm| scalar_term(term));
    lemma_filter_valid(all, |term: ProductTerm| outer_term(term), squares.len());
    lemma_filter_valid(all, |term: ProductTerm| inner_term(term), squares.len());
    lemma_filter_valid(all, |term: ProductTerm| left_contraction_term(term), squares.len());
    lemma_filter_valid(all, |term: ProductTerm| right_contraction_term(term), squares.len());
    lemma_filter_valid(all, |term: ProductTerm| scalar_term(term), squares.len());
    lemma_dual_distinct_keys(outer, squares.len());
    let regressive = outer.map_values(|term: ProductTerm| dual_term(term, squares.len()));
    assert forall|i: int| 0 <= i < regressive.len() implies {
        &&& (#[trigger] regressive[i]).product.valid_in(squares.len())
        &&& regressive[i].factor_a.valid_in(squares.len())
        &&& regressive[i].factor_b.valid_in(squares.len())
    } by {
        lemma_dual_valid(outer[i].product, squares.len());
        lemma_dual_valid(outer[i].factor_a, squares.len());
        lemma_dual_valid(outer[i].factor_b, squares.len());
    }
}

/// All elements of all entries of the multiplication table lie in the algebra.
pub proof fn lemma_table_valid(squares: Seq<isize>)
    requires
        crate::algebra::valid_signature(squares),
    ensures
        valid_product_terms(spec_geometric_product(squares), squares.len()),
{
    let basis = spec_basis(squares.len());
    let all = spec_geometric_product(squares);
    lemma_basis_valid(squares.len());
    assert forall|i: int| 0 <= i < all.len() implies {
        &&& (#[trigger] all[i]).product.valid_in(squares.len())
        &&& all[i].factor_a.valid_in(squares.len())
        &&& all[i].factor_b.valid_in(squares.len())
    } by {
        lemma_product_table_terms(basis, basis, squares, all[i]);
        let u = choose|u: int| 0 <= u < basis.len() && basis[u] == all[i].factor_a;
        let v = choose|v: int| 0 <= v < basis.len() && basis[v] == all[i].factor_b;
        crate::algebra::lemma_product_scalar(basis[u], basis[v], squares);
    }
}

} // verus!
