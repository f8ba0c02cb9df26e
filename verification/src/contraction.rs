//! Synthesis of products: the sum-of-pairs matrix of a product between two classes and
//! the contraction of its columns into wide multiplications.

use vstd::prelude::*;
use crate::algebra::BasisElement;
use crate::ast::{
    parameters_view, AstNode, AstNodeView, DataType, DataTypeView, Expression, ExpressionView,
    Parameter, ParameterView, empty_expression,
};
use crate::class::{
    first_position, group_offset, lemma_first_position, lemma_group_in_flat, place_of,
    position_of_index, sort_indices, sorted_indices, unique_indices, without_repetitions,
    MultiVectorClass, MultiVectorClassRegistry,
};
use crate::compile::{class_of, constructor_operation, unit_times};
use crate::product::{Product, ProductTerm};
use crate::simplify::{
    lemma_lanes_agree, lemma_simplify_keeps_size, simplify_and_legalize, spec_simplify,
};
use crate::tree::{
    constant, gather, multiply, spec_add, spec_constant, spec_constructor, spec_gather,
    spec_multiply, spec_operation, spec_return, spec_variable, sum, variable,
};

verus! {

/// One entry of the sum-of-pairs matrix: the coefficient, and the position in the
/// right operand of the element that the entry multiplies with.
pub type Entry = (isize, usize);

/// Whether the scalars of all elements of all terms are `-1`, `0` or `+1`.
pub open spec fn unit_terms(terms: Seq<ProductTerm>) -> bool {
    forall|i: int|
        0 <= i < terms.len() ==> {
            &&& -1 <= (#[trigger] terms[i]).product.scalar <= 1
            &&& -1 <= terms[i].factor_a.scalar <= 1
            &&& -1 <= terms[i].factor_b.scalar <= 1
        }
}

/// Whether both operands hold the factors of the term.
pub open spec fn operands_hold(a: Seq<BasisElement>, b: Seq<BasisElement>, term: ProductTerm) -> bool {
    first_position(a, term.factor_a.index) is Some && first_position(b, term.factor_b.index) is Some
}

/// The indices of the products of the terms whose factors both operands hold.
pub open spec fn product_indices(
    terms: Seq<ProductTerm>,
    a: Seq<BasisElement>,
    b: Seq<BasisElement>,
) -> Seq<u16> {
    terms.filter(|term: ProductTerm| operands_hold(a, b, term)).map_values(
        |term: ProductTerm| term.product.index,
    )
}

/// The signature of the result of a product: the indices that can arise, each once,
/// in ascending order.
pub open spec fn product_signature(
    terms: Seq<ProductTerm>,
    a: Seq<BasisElement>,
    b: Seq<BasisElement>,
) -> Seq<u16> {
    sorted_indices(without_repetitions(product_indices(terms, a, b)))
}

/// The row, the column and the position in the right operand that a term belongs to:
/// where the result holds its product and the operands hold its factors.
pub open spec fn term_place(
    term: ProductTerm,
    result: Seq<BasisElement>,
    a: Seq<BasisElement>,
    b: Seq<BasisElement>,
) -> Option<(int, int, int)> {
    match (
        first_position(result, term.product.index),
        first_position(a, term.factor_a.index),
        first_position(b, term.factor_b.index),
    ) {
        (Some(y), Some(x), Some(position)) => Some((y, x, position)),
        _ => None,
    }
}

/// The coefficient of a term: its own three signs and those of the three elements of
/// the classes.
pub open spec fn term_coefficient(
    term: ProductTerm,
    result_element: BasisElement,
    a_element: BasisElement,
    b_element: BasisElement,
) -> isize {
    (result_element.scalar * term.product.scalar * a_element.scalar * term.factor_a.scalar
        * b_element.scalar * term.factor_b.scalar) as isize
}

/// The entry of the matrix in row `y` and column `x`: that of the last term that
/// belongs there, and zero if there is none.
pub open spec fn matrix_entry(
    terms: Seq<ProductTerm>,
    result: Seq<BasisElement>,
    a: Seq<BasisElement>,
    b: Seq<BasisElement>,
    y: int,
    x: int,
) -> Entry
    decreases terms.len(),
{
    if terms.len() == 0 {
        (0, 0)
    } else {
        match term_place(terms.last(), result, a, b) {
            Some(place) => if place.0 == y && place.1 == x {
                (term_coefficient(terms.last(), result[y], a[x], b[place.2]), place.2 as usize)
            } else {
                matrix_entry(terms.drop_last(), result, a, b, y, x)
            },
            None => matrix_entry(terms.drop_last(), result, a, b, y, x),
        }
    }
}

/// The sum-of-pairs matrix: one row for each element of the result, one column for
/// each element of the left operand.
pub open spec fn spec_matrix(
    terms: Seq<ProductTerm>,
    result: Seq<BasisElement>,
    a: Seq<BasisElement>,
    b: Seq<BasisElement>,
) -> Seq<Seq<Entry>> {
    Seq::new(
        result.len(),
        |y: int| Seq::new(a.len(), |x: int| matrix_entry(terms, result, a, b, y, x)),
    )
}

/// The entries of column `x` in the rows of one group.
pub open spec fn column_of(matrix: Seq<Seq<Entry>>, base: int, size: usize, x: int) -> Seq<Entry> {
    Seq::new(size as nat, |k: int| matrix[base + k][x])
}

/// The columns collected so far into one wide multiplication.
pub ghost struct Contraction {
    pub a: ExpressionView,
    pub b: ExpressionView,
    pub a_pairs: Seq<(usize, usize)>,
    pub b_pairs: Seq<(usize, usize)>,
    pub factors: Seq<isize>,
}

/// The state of the synthesis of one group: the sum so far and the contraction.
pub ghost struct GroupState {
    pub expression: ExpressionView,
    pub contraction: Contraction,
}

/// Whether all coefficients of the column are zero.
pub open spec fn all_zero(column: Seq<Entry>) -> bool {
    forall|k: int| 0 <= k < column.len() ==> (#[trigger] column[k]).0 == 0
}

/// Whether some coefficient of the column is zero.
pub open spec fn has_zero(column: Seq<Entry>) -> bool {
    exists|k: int| 0 <= k < column.len() && (#[trigger] column[k]).0 == 0
}

/// Whether some factor is not zero.
pub open spec fn any_nonzero(factors: Seq<isize>) -> bool {
    exists|k: int| 0 <= k < factors.len() && #[trigger] factors[k] != 0
}

/// Whether the column uses only lanes that the contraction has left free.
pub open spec fn fits_free_lanes(column: Seq<Entry>, factors: Seq<isize>) -> bool {
    forall|k: int| 0 <= k < column.len() ==> (#[trigger] column[k]).0 == 0 || factors[k] == 0
}

/// The first lane of the column whose coefficient is not zero.
pub open spec fn first_nonzero(column: Seq<Entry>) -> int {
    choose|k: int|
        0 <= k < column.len() && (#[trigger] column[k]).0 != 0 && forall|j: int|
            0 <= j < k ==> (#[trigger] column[j]).0 == 0
}

/// The places in the right operand that the lanes of a column gather from. A lane
/// with coefficient zero takes the place of the first lane that has one.
pub open spec fn right_pairs(column: Seq<Entry>, b: MultiVectorClass) -> Seq<(usize, usize)> {
    Seq::new(
        column.len(),
        |k: int|
            place_of(
                b.spec_groups(),
                if column[k].0 == 0 {
                    column[first_nonzero(column)].1 as int
                } else {
                    column[k].1 as int
                },
            ),
    )
}

/// The state before the first column.
pub open spec fn initial_state(size: usize) -> GroupState {
    GroupState {
        expression: empty_expression(size),
        contraction: Contraction {
            a: empty_expression(size),
            b: empty_expression(size),
            a_pairs: Seq::new(size as nat, |k: int| (0usize, 0usize)),
            b_pairs: Seq::new(size as nat, |k: int| (0usize, 0usize)),
            factors: Seq::new(size as nat, |k: int| 0isize),
        },
    }
}

/// The state after one more column. A column of zeros changes nothing. A column that
/// leaves a lane free, uses only lanes that the contraction has left free and takes
/// its operands from groups as wide as those of the contraction joins the contraction.
/// Every other column becomes a term of the sum: the lane of the left operand,
/// broadcast, times the lanes of the right operand, times the coefficients.
#[verifier::opaque]
pub open spec fn column_step(
    state: GroupState,
    column: Seq<Entry>,
    x: int,
    size: usize,
    a: ParameterView,
    b: ParameterView,
) -> GroupState {
    if all_zero(column) {
        state
    } else {
        let a_class = class_of(a.data_type);
        let b_class = class_of(b.data_type);
        let a_place = place_of(a_class.spec_groups(), x);
        let b_pairs = right_pairs(column, b_class);
        let b_group = b_pairs[first_nonzero(column)].0;
        let a_size = a_class.spec_groups()[a_place.0 as int].len() as usize;
        let b_size = b_class.spec_groups()[b_group as int].len() as usize;
        let old = state.contraction;
        let contractable = fits_free_lanes(column, old.factors) && (old.a.content is Empty
            || old.a.size == a_size) && (old.b.content is Empty || old.b.size == b_size);
        if contractable && has_zero(column) {
            let fresh = old.a.content is Empty;
            GroupState {
                expression: state.expression,
                contraction: Contraction {
                    a: if fresh {
                        spec_variable(a.name, a_size)
                    } else {
                        old.a
                    },
                    b: if fresh {
                        spec_variable(b.name, b_size)
                    } else {
                        old.b
                    },
                    a_pairs: Seq::new(
                        size as nat,
                        |k: int|
                            if column[k].0 != 0 {
                                a_place
                            } else if fresh {
                                (a_place.0, 0usize)
                            } else {
                                old.a_pairs[k]
                            },
                    ),
                    b_pairs: Seq::new(
                        size as nat,
                        |k: int|
                            if column[k].0 != 0 {
                                b_pairs[k]
                            } else if fresh {
                                (b_pairs[k].0, 0usize)
                            } else {
                                old.b_pairs[k]
                            },
                    ),
                    factors: Seq::new(
                        size as nat,
                        |k: int|
                            if column[k].0 != 0 {
                                column[k].0
                            } else {
                                old.factors[k]
                            },
                    ),
                },
            }
        } else {
            GroupState {
                expression: spec_add(
                    size,
                    state.expression,
                    spec_multiply(
                        size,
                        spec_gather(
                            size,
                            spec_variable(a.name, a_size),
                            Seq::new(size as nat, |k: int| a_place),
                        ),
                        spec_multiply(
                            size,
                            spec_gather(size, spec_variable(b.name, b_size), b_pairs),
                            spec_constant(size, column.map_values(|entry: Entry| entry.0)),
                        ),
                    ),
                ),
                contraction: old,
            }
        }
    }
}

/// The state after the first `columns` columns.
#[verifier::opaque]
pub open spec fn fold_columns(
    matrix: Seq<Seq<Entry>>,
    base: int,
    size: usize,
    columns: int,
    a: ParameterView,
    b: ParameterView,
) -> GroupState
    decreases columns,
{
    if columns <= 0 {
        initial_state(size)
    } else {
        column_step(
            fold_columns(matrix, base, size, columns - 1, a, b),
            column_of(matrix, base, size, columns - 1),
            columns - 1,
            size,
            a,
            b,
        )
    }
}

/// The expression of a group once all columns are in: the sum, then the contraction
/// if it holds anything; a constant of zeros if there is neither; all simplified.
#[verifier::opaque]
pub open spec fn finish_group(state: GroupState, size: usize) -> ExpressionView {
    let contraction = state.contraction;
    let total = if any_nonzero(contraction.factors) {
        spec_add(
            size,
            state.expression,
            spec_multiply(
                size,
                spec_multiply(
                    size,
                    spec_gather(size, contraction.a, contraction.a_pairs),
                    spec_gather(size, contraction.b, contraction.b_pairs),
                ),
                spec_constant(size, contraction.factors),
            ),
        )
    } else {
        state.expression
    };
    spec_simplify(
        if total.content is Empty {
            spec_constant(size, Seq::new(size as nat, |k: int| 0isize))
        } else {
            total
        },
    )
}

/// The expression of the group of the result that starts at row `base`.
pub open spec fn spec_product_group(
    matrix: Seq<Seq<Entry>>,
    base: int,
    size: usize,
    a: ParameterView,
    b: ParameterView,
) -> ExpressionView {
    finish_group(
        fold_columns(
            matrix,
            base,
            size,
            class_of(a.data_type).spec_flat_basis().len() as int,
            a,
            b,
        ),
        size,
    )
}

/// The expressions of the groups of the result of a product.
pub open spec fn product_groups(
    terms: Seq<ProductTerm>,
    a: ParameterView,
    b: ParameterView,
    result: MultiVectorClass,
) -> Seq<ExpressionView> {
    let matrix = spec_matrix(
        terms,
        result.spec_flat_basis(),
        class_of(a.data_type).spec_flat_basis(),
        class_of(b.data_type).spec_flat_basis(),
    );
    Seq::new(
        result.spec_groups().len(),
        |g: int|
            spec_product_group(
                matrix,
                group_offset(result.spec_groups(), g) as int,
                result.spec_groups()[g].len() as usize,
                a,
                b,
            ),
    )
}

/// The operation that multiplies two multivectors, or `Empty` where no class has
/// exactly the indices that can arise.
pub open spec fn spec_product_operation(
    name: Seq<char>,
    terms: Seq<ProductTerm>,
    a: ParameterView,
    b: ParameterView,
    registry: MultiVectorClassRegistry,
) -> AstNodeView {
    let a_flat = class_of(a.data_type).spec_flat_basis();
    let b_flat = class_of(b.data_type).spec_flat_basis();
    match registry.spec_get(product_signature(terms, a_flat, b_flat)) {
        None => AstNodeView::Empty,
        Some(result) => spec_operation(
            name,
            DataTypeView::MultiVector(result),
            seq![a, b],
            seq![spec_return(spec_constructor(result, product_groups(terms, a, b, result)))],
        ),
    }
}

/// The values of a matrix.
pub open spec fn matrix_view(matrix: Seq<Vec<Entry>>) -> Seq<Seq<Entry>> {
    matrix.map_values(|row: Vec<Entry>| row@)
}

/// A vector of `count` copies of a value.
pub fn repeated<T: Copy>(value: T, count: usize) -> (copies: Vec<T>)
    ensures
        copies@ == Seq::new(count as nat, |k: int| value),
{
    let mut copies: Vec<T> = Vec::new();
    let mut k: usize = 0;
    while k < count
        invariant
            k <= count,
            copies@.len() == k,
            forall|j: int| 0 <= j < k ==> copies@[j] == value,
        decreases count - k,
    {
        copies.push(value);
        k += 1;
    }
    assert(copies@ =~= Seq::new(count as nat, |k: int| value));
    copies
}

/// Every entry names a position in the right operand, or position zero.
pub proof fn lemma_matrix_entry_bound(
    terms: Seq<ProductTerm>,
    result: Seq<BasisElement>,
    a: Seq<BasisElement>,
    b: Seq<BasisElement>,
    y: int,
    x: int,
)
    requires
        b.len() <= usize::MAX,
    ensures
        matrix_entry(terms, result, a, b, y, x).1 < b.len() || matrix_entry(
            terms,
            result,
            a,
            b,
            y,
            x,
        ).1 == 0,
    decreases terms.len(),
{
    if terms.len() > 0 {
        lemma_first_position(b, terms.last().factor_b.index);
        lemma_matrix_entry_bound(terms.drop_last(), result, a, b, y, x);
    }
}

/// Fills the sum-of-pairs matrix.
#[verifier::loop_isolation(false)]
fn fill_matrix(
    terms: &Vec<ProductTerm>,
    result: &Vec<BasisElement>,
    a: &Vec<BasisElement>,
    b: &Vec<BasisElement>,
) -> (matrix: Vec<Vec<Entry>>)
    requires
        unit_terms(terms@),
        crate::class::unit_scalars(result@),
        crate::class::unit_scalars(a@),
        crate::class::unit_scalars(b@),
    ensures
        matrix_view(matrix@) == spec_matrix(terms@, result@, a@, b@),
        matrix@.len() == result@.len(),
        forall|y: int| 0 <= y < result@.len() ==> (#[trigger] matrix@[y])@.len() == a@.len(),
        forall|y: int, x: int|
            0 <= y < result@.len() && 0 <= x < a@.len() ==> (#[trigger] matrix@[y]@[x])
                == matrix_entry(terms@, result@, a@, b@, y, x),
{
    let mut matrix: Vec<Vec<Entry>> = Vec::new();
    let mut y: usize = 0;
    while y < result.len()
        invariant
            y <= result.len(),
            matrix@.len() == y,
            forall|i: int| 0 <= i < y ==> (#[trigger] matrix@[i])@ == Seq::new(
                a@.len(),
                |x: int| (0isize, 0usize),
            ),
        decreases result.len() - y,
    {
        matrix.push(repeated((0isize, 0usize), a.len()));
        y += 1;
    }
    let mut i: usize = 0;
    assert(terms@.take(0) =~= Seq::empty());
    while i < terms.len()
        invariant
            i <= terms.len(),
            matrix@.len() == result@.len(),
            forall|y: int| 0 <= y < result@.len() ==> (#[trigger] matrix@[y])@.len() == a@.len(),
            forall|y: int, x: int|
                0 <= y < result@.len() && 0 <= x < a@.len() ==> (#[trigger] matrix@[y]@[x])
                    == matrix_entry(terms@.take(i as int), result@, a@, b@, y, x),
        decreases terms.len() - i,
    {
        let term = terms[i];
        let ghost before = matrix@;
        proof {
            assert(terms@.take(i as int + 1).drop_last() =~= terms@.take(i as int));
            assert(terms@.take(i as int + 1).last() == term);
            lemma_first_position(result@, term.product.index);
            lemma_first_position(a@, term.factor_a.index);
            lemma_first_position(b@, term.factor_b.index);
        }
        match position_of_index(result, term.product.index) {
            Some(y) => {
                match position_of_index(a, term.factor_a.index) {
                    Some(x) => {
                        match position_of_index(b, term.factor_b.index) {
                            Some(position) => {
                                let coefficient = unit_times(
                                    unit_times(
                                        unit_times(
                                            unit_times(
                                                unit_times(result[y].scalar, term.product.scalar),
                                                a[x].scalar,
                                            ),
                                            term.factor_a.scalar,
                                        ),
                                        b[position].scalar,
                                    ),
                                    term.factor_b.scalar,
                                );
                                matrix[y][x] = (coefficient, position);
                                assert(term_place(term, result@, a@, b@) == Some(
                                    (y as int, x as int, position as int),
                                ));
                            },
                            None => {},
                        }
                    },
                    None => {},
                }
            },
            None => {},
        }
        i += 1;
    }
    proof {
        assert(terms@.take(terms.len() as int) =~= terms@);
        assert forall|y: int| 0 <= y < result@.len() implies (#[trigger] matrix_view(matrix@)[y])
            =~= spec_matrix(terms@, result@, a@, b@)[y] by {
            assert(matrix_view(matrix@)[y] == matrix@[y]@);
        }
        assert(matrix_view(matrix@) =~= spec_matrix(terms@, result@, a@, b@));
    }
    matrix
}

fn every_coefficient_zero(column: &Vec<Entry>) -> (all: bool)
    ensures
        all == all_zero(column@),
{
    let mut k: usize = 0;
    while k < column.len()
        invariant
            k <= column.len(),
            forall|j: int| 0 <= j < k ==> (#[trigger] column@[j]).0 == 0,
        decreases column.len() - k,
    {
        if column[k].0 != 0 {
            return false;
        }
        k += 1;
    }
    true
}

fn some_coefficient_zero(column: &Vec<Entry>) -> (some: bool)
    ensures
        some == has_zero(column@),
{
    let mut k: usize = 0;
    while k < column.len()
        invariant
            k <= column.len(),
            forall|j: int| 0 <= j < k ==> (#[trigger] column@[j]).0 != 0,
        decreases column.len() - k,
    {
        if column[k].0 == 0 {
            return true;
        }
        k += 1;
    }
    false
}

fn some_factor_nonzero(factors: &Vec<isize>) -> (some: bool)
    ensures
        some == any_nonzero(factors@),
{
    let mut k: usize = 0;
    while k < factors.len()
        invariant
            k <= factors.len(),
            forall|j: int| 0 <= j < k ==> #[trigger] factors@[j] == 0,
        decreases factors.len() - k,
    {
        if factors[k] != 0 {
            return true;
        }
        k += 1;
    }
    false
}

fn column_fits(column: &Vec<Entry>, factors: &Vec<isize>) -> (fits: bool)
    requires
        factors@.len() == column@.len(),
    ensures
        fits == fits_free_lanes(column@, factors@),
{
    let mut k: usize = 0;
    while k < column.len()
        invariant
            k <= column.len(),
            factors@.len() == column@.len(),
            forall|j: int| 0 <= j < k ==> (#[trigger] column@[j]).0 == 0 || factors@[j] == 0,
        decreases column.len() - k,
    {
        if column[k].0 != 0 && factors[k] != 0 {
            return false;
        }
        k += 1;
    }
    true
}

fn first_nonzero_lane(column: &Vec<Entry>) -> (lane: usize)
    requires
        !all_zero(column@),
    ensures
        lane == first_nonzero(column@),
        lane < column@.len(),
        column@[lane as int].0 != 0,
{
    let mut k: usize = 0;
    while k < column.len()
        invariant
            k <= column.len(),
            forall|j: int| 0 <= j < k ==> (#[trigger] column@[j]).0 == 0,
        decreases column.len() - k,
    {
        if column[k].0 != 0 {
            proof {
                let found = first_nonzero(column@);
                assert(column@[k as int].0 != 0);
                assert(0 <= found < column@.len() && column@[found].0 != 0 && forall|j: int|
                    0 <= j < found ==> (#[trigger] column@[j]).0 == 0);
                if found < k {
                    assert(column@[found].0 == 0);
                }
                if k < found {
                    assert(column@[k as int].0 == 0);
                }
            }
            return k;
        }
        k += 1;
    }
    proof {
        assert(all_zero(column@));
    }
    0
}

/// The columns collected so far into one wide multiplication.
pub struct Collected<'a> {
    pub a: Expression<'a>,
    pub b: Expression<'a>,
    pub a_pairs: Vec<(usize, usize)>,
    pub b_pairs: Vec<(usize, usize)>,
    pub factors: Vec<isize>,
}

impl<'a> Collected<'a> {
    /// The mathematical value of the contraction.
    pub open spec fn view(&self) -> Contraction {
        Contraction {
            a: self.a.view(),
            b: self.b.view(),
            a_pairs: self.a_pairs@,
            b_pairs: self.b_pairs@,
            factors: self.factors@,
        }
    }

    /// Whether the contraction has one entry for each of `size` lanes, and operands
    /// that are variables or absent.
    pub open spec fn covers(&self, size: usize) -> bool {
        &&& self.a_pairs@.len() == size
        &&& self.b_pairs@.len() == size
        &&& self.factors@.len() == size
        &&& (self.a.view().content is Empty || self.a.view().content is Variable)
        &&& (self.b.view().content is Empty || self.b.view().content is Variable)
    }
}

/// Whether the sum so far is as wide as the group, in all its operands.
pub open spec fn group_wide(expression: ExpressionView, size: usize) -> bool {
    expression.size == size && crate::simplify::lanes_agree(expression)
}

/// The places in the right operand that the lanes of a column gather from.
fn right_operand_pairs(column: &Vec<Entry>, lane: usize, b_class: &MultiVectorClass) -> (pairs: Vec<
    (usize, usize),
>)
    requires
        lane == first_nonzero(column@),
        lane < column@.len(),
        forall|k: int|
            0 <= k < column@.len() ==> (#[trigger] column@[k]).1 < b_class.spec_flat_basis().len(),
    ensures
        pairs@ == right_pairs(column@, *b_class),
        forall|k: int| 0 <= k < pairs@.len() ==> (#[trigger] pairs@[k]).0 < b_class.spec_groups().len(),
{
    let mut pairs: Vec<(usize, usize)> = Vec::new();
    let mut k: usize = 0;
    while k < column.len()
        invariant
            k <= column.len(),
            lane == first_nonzero(column@),
            lane < column@.len(),
            forall|j: int|
                0 <= j < column@.len() ==> (#[trigger] column@[j]).1 < b_class.spec_flat_basis().len(),
            pairs@.len() == k,
            forall|j: int| 0 <= j < k ==> pairs@[j] == right_pairs(column@, *b_class)[j],
            forall|j: int| 0 <= j < k ==> (#[trigger] pairs@[j]).0 < b_class.spec_groups().len(),
        decreases column.len() - k,
    {
        let source: usize = if column[k].0 == 0 {
            column[lane].1
        } else {
            column[k].1
        };
        pairs.push(b_class.index_in_group(source));
        k += 1;
    }
    assert(pairs@ =~= right_pairs(column@, *b_class));
    pairs
}

/// Takes the lanes of a column that are not zero into the contraction.
fn collect_column<'a>(
    collected: Collected<'a>,
    column: &Vec<Entry>,
    a_place: (usize, usize),
    b_pairs: &Vec<(usize, usize)>,
    fresh: bool,
    size: usize,
) -> (next: Collected<'a>)
    requires
        collected.covers(size),
        column@.len() == size,
        b_pairs@.len() == size,
    ensures
        next.covers(size),
        next.a.view() == collected.a.view(),
        next.b.view() == collected.b.view(),
        next.a_pairs@ == Seq::new(
            size as nat,
            |k: int|
                if column@[k].0 != 0 {
                    a_place
                } else if fresh {
                    (a_place.0, 0usize)
                } else {
                    collected.a_pairs@[k]
                },
        ),
        next.b_pairs@ == Seq::new(
            size as nat,
            |k: int|
                if column@[k].0 != 0 {
                    b_pairs@[k]
                } else if fresh {
                    (b_pairs@[k].0, 0usize)
                } else {
                    collected.b_pairs@[k]
                },
        ),
        next.factors@ == Seq::new(
            size as nat,
            |k: int|
                if column@[k].0 != 0 {
                    column@[k].0
                } else {
                    collected.factors@[k]
                },
        ),
{
    let ghost old_a_pairs = collected.a_pairs@;
    let ghost old_b_pairs = collected.b_pairs@;
    let ghost old_factors = collected.factors@;
    let Collected { a, b, a_pairs, b_pairs: collected_b_pairs, factors } = collected;
    let mut a_pairs = a_pairs;
    let mut collected_b_pairs = collected_b_pairs;
    let mut factors = factors;
    let mut k: usize = 0;
    while k < size
        invariant
            k <= size,
            column@.len() == size,
            b_pairs@.len() == size,
            a_pairs@.len() == size,
            collected_b_pairs@.len() == size,
            factors@.len() == size,
            forall|j: int|
                0 <= j < k ==> a_pairs@[j] == if column@[j].0 != 0 {
                    a_place
                } else if fresh {
                    (a_place.0, 0usize)
                } else {
                    old_a_pairs[j]
                },
            forall|j: int|
                0 <= j < k ==> collected_b_pairs@[j] == if column@[j].0 != 0 {
                    b_pairs@[j]
                } else if fresh {
                    (b_pairs@[j].0, 0usize)
                } else {
                    old_b_pairs[j]
                },
            forall|j: int|
                0 <= j < k ==> factors@[j] == if column@[j].0 != 0 {
                    column@[j].0
                } else {
                    old_factors[j]
                },
            forall|j: int| k <= j < size ==> a_pairs@[j] == old_a_pairs[j],
            forall|j: int| k <= j < size ==> collected_b_pairs@[j] == old_b_pairs[j],
            forall|j: int| k <= j < size ==> factors@[j] == old_factors[j],
        decreases size - k,
    {
        if column[k].0 != 0 {
            a_pairs[k] = a_place;
            collected_b_pairs[k] = b_pairs[k];
            factors[k] = column[k].0;
        } else if fresh {
            a_pairs[k] = (a_place.0, 0);
            collected_b_pairs[k] = (b_pairs[k].0, 0);
        }
        k += 1;
    }
    let next = Collected { a, b, a_pairs, b_pairs: collected_b_pairs, factors };
    proof {
        assert(next.a_pairs@ =~= Seq::new(
            size as nat,
            |k: int|
                if column@[k].0 != 0 {
                    a_place
                } else if fresh {
                    (a_place.0, 0usize)
                } else {
                    old_a_pairs[k]
                },
        ));
        assert(next.b_pairs@ =~= Seq::new(
            size as nat,
            |k: int|
                if column@[k].0 != 0 {
                    b_pairs@[k]
                } else if fresh {
                    (b_pairs@[k].0, 0usize)
                } else {
                    old_b_pairs[k]
                },
        ));
        assert(next.factors@ =~= Seq::new(
            size as nat,
            |k: int|
                if column@[k].0 != 0 {
                    column@[k].0
                } else {
                    old_factors[k]
                },
        ));
    }
    next
}

/// The coefficients of a column.
fn coefficients_of(column: &Vec<Entry>) -> (coefficients: Vec<isize>)
    ensures
        coefficients@ == column@.map_values(|entry: Entry| entry.0),
{
    let mut coefficients: Vec<isize> = Vec::new();
    let mut k: usize = 0;
    while k < column.len()
        invariant
            k <= column.len(),
            coefficients@.len() == k,
            forall|j: int| 0 <= j < k ==> coefficients@[j] == column@[j].0,
        decreases column.len() - k,
    {
        coefficients.push(column[k].0);
        k += 1;
    }
    assert(coefficients@ =~= column@.map_values(|entry: Entry| entry.0));
    coefficients
}

/// Takes one column into the synthesis of a group.
#[verifier::rlimit(100)]
fn take_column<'a>(
    expression: Expression<'a>,
    collected: Collected<'a>,
    column: &Vec<Entry>,
    x: usize,
    size: usize,
    parameter_a: &Parameter<'a>,
    parameter_b: &Parameter<'a>,
) -> (next: (Expression<'a>, Collected<'a>))
    requires
        column@.len() == size,
        collected.covers(size),
        group_wide(expression.view(), size),
        parameter_a.data_type is MultiVector,
        parameter_b.data_type is MultiVector,
        class_of(parameter_a.view().data_type).well_formed(),
        class_of(parameter_b.view().data_type).well_formed(),
        x < class_of(parameter_a.view().data_type).spec_flat_basis().len(),
        forall|k: int|
            0 <= k < column@.len() ==> (#[trigger] column@[k]).1 < class_of(
                parameter_b.view().data_type,
            ).spec_flat_basis().len(),
    ensures
        (GroupState { expression: next.0.view(), contraction: next.1.view() }) == column_step(
            GroupState { expression: expression.view(), contraction: collected.view() },
            column@,
            x as int,
            size,
            parameter_a.view(),
            parameter_b.view(),
        ),
        next.1.covers(size),
        group_wide(next.0.view(), size),
{
    proof {
        reveal(column_step);
    }
    if every_coefficient_zero(column) {
        return (expression, collected);
    }
    let a_class = parameter_a.multi_vector_class();
    let b_class = parameter_b.multi_vector_class();
    let a_place = a_class.index_in_group(x);
    let lane = first_nonzero_lane(column);
    let b_pairs = right_operand_pairs(column, lane, b_class);
    let b_group: usize = b_pairs[lane].0;
    assert(a_class.grouped_basis@[a_place.0 as int]@ == a_class.spec_groups()[a_place.0 as int]);
    assert(b_class.grouped_basis@[b_group as int]@ == b_class.spec_groups()[b_group as int]);
    let a_size: usize = a_class.grouped_basis[a_place.0].len();
    let b_size: usize = b_class.grouped_basis[b_group].len();
    let contractable = column_fits(column, &collected.factors) && (collected.a.content.is_empty()
        || collected.a.size == a_size) && (collected.b.content.is_empty() || collected.b.size
        == b_size);
    if contractable && some_coefficient_zero(column) {
        let fresh = collected.a.content.is_empty();
        let Collected { a, b, a_pairs, b_pairs: collected_b_pairs, factors } = collected;
        let started = if fresh {
            Collected {
                a: variable(parameter_a.name, a_size),
                b: variable(parameter_b.name, b_size),
                a_pairs,
                b_pairs: collected_b_pairs,
                factors,
            }
        } else {
            Collected { a, b, a_pairs, b_pairs: collected_b_pairs, factors }
        };
        let next = collect_column(started, column, a_place, &b_pairs, fresh, size);
        proof {
            let after = column_step(
                GroupState { expression: expression.view(), contraction: collected.view() },
                column@,
                x as int,
                size,
                parameter_a.view(),
                parameter_b.view(),
            );
            assert(next.a_pairs@ =~= after.contraction.a_pairs);
            assert(next.b_pairs@ =~= after.contraction.b_pairs);
            assert(next.factors@ =~= after.contraction.factors);
        }
        (expression, next)
    } else {
        let a_pairs = repeated(a_place, size);
        let left = gather(size, variable(parameter_a.name, a_size), a_pairs);
        let right = gather(size, variable(parameter_b.name, b_size), b_pairs);
        let coefficients = constant(size, coefficients_of(column));
        proof {
            let a_variable = spec_variable(parameter_a.name@, a_size);
            let b_variable = spec_variable(parameter_b.name@, b_size);
            lemma_lanes_agree(size, a_variable, b_variable);
            lemma_lanes_agree(size, b_variable, a_variable);
            lemma_lanes_agree(size, right.view(), coefficients.view());
            lemma_lanes_agree(size, coefficients.view(), coefficients.view());
            lemma_lanes_agree(
                size,
                left.view(),
                spec_multiply(size, right.view(), coefficients.view()),
            );
            lemma_lanes_agree(
                size,
                expression.view(),
                spec_multiply(
                    size,
                    left.view(),
                    spec_multiply(size, right.view(), coefficients.view()),
                ),
            );
        }
        let term = multiply(size, left, multiply(size, right, coefficients));
        (sum(size, expression, term), collected)
    }
}

/// The entries of one column in the rows of one group.
fn read_column(matrix: &Vec<Vec<Entry>>, base: usize, size: usize, x: usize) -> (column: Vec<Entry>)
    requires
        base + size <= matrix@.len(),
        forall|y: int| base <= y < base + size ==> x < (#[trigger] matrix@[y])@.len(),
    ensures
        column@ == column_of(matrix_view(matrix@), base as int, size, x as int),
{
    let mut column: Vec<Entry> = Vec::new();
    let rows: usize = matrix.len();
    let mut k: usize = 0;
    while k < size
        invariant
            k <= size,
            rows == matrix@.len(),
            base + size <= rows,
            forall|y: int| base <= y < base + size ==> x < (#[trigger] matrix@[y])@.len(),
            column@.len() == k,
            forall|j: int|
                0 <= j < k ==> column@[j] == column_of(
                    matrix_view(matrix@),
                    base as int,
                    size,
                    x as int,
                )[j],
        decreases size - k,
    {
        assert(matrix_view(matrix@)[base + k] == matrix@[base + k]@);
        column.push(matrix[base + k][x]);
        k += 1;
    }
    assert(column@ =~= column_of(matrix_view(matrix@), base as int, size, x as int));
    column
}

/// The expression of one group of the result of a product.
fn product_group<'a>(
    matrix: &Vec<Vec<Entry>>,
    base: usize,
    size: usize,
    parameter_a: &Parameter<'a>,
    parameter_b: &Parameter<'a>,
) -> (expression: Expression<'a>)
    requires
        size >= 1,
        base + size <= matrix@.len(),
        parameter_a.data_type is MultiVector,
        parameter_b.data_type is MultiVector,
        class_of(parameter_a.view().data_type).well_formed(),
        class_of(parameter_b.view().data_type).well_formed(),
        forall|y: int|
            0 <= y < matrix@.len() ==> (#[trigger] matrix@[y])@.len() == class_of(
                parameter_a.view().data_type,
            ).spec_flat_basis().len(),
        forall|y: int, x: int|
            0 <= y < matrix@.len() && 0 <= x < matrix@[y]@.len() ==> (#[trigger] matrix@[y]@[x]).1
                < class_of(parameter_b.view().data_type).spec_flat_basis().len(),
    ensures
        expression.view() == spec_product_group(
            matrix_view(matrix@),
            base as int,
            size,
            parameter_a.view(),
            parameter_b.view(),
        ),
        expression.view().size == size,
{
    let ghost values = matrix_view(matrix@);
    let ghost a = parameter_a.view();
    let ghost b = parameter_b.view();
    let columns: usize = matrix[base].len();
    let mut expression: Expression<'a> = Expression {
        size,
        content: crate::ast::ExpressionContent::Empty,
    };
    proof {
        reveal_with_fuel(fold_columns, 1);
    }
    let mut collected = Collected {
        a: Expression { size, content: crate::ast::ExpressionContent::Empty },
        b: Expression { size, content: crate::ast::ExpressionContent::Empty },
        a_pairs: repeated((0usize, 0usize), size),
        b_pairs: repeated((0usize, 0usize), size),
        factors: repeated(0isize, size),
    };
    let mut x: usize = 0;
    while x < columns
        invariant
            x <= columns,
            size >= 1,
            base + size <= matrix@.len(),
            values == matrix_view(matrix@),
            a == parameter_a.view(),
            b == parameter_b.view(),
            parameter_a.data_type is MultiVector,
            parameter_b.data_type is MultiVector,
            class_of(a.data_type).well_formed(),
            class_of(b.data_type).well_formed(),
            columns == class_of(a.data_type).spec_flat_basis().len(),
            forall|y: int| 0 <= y < matrix@.len() ==> (#[trigger] matrix@[y])@.len() == columns,
            forall|y: int, x: int|
                0 <= y < matrix@.len() && 0 <= x < matrix@[y]@.len() ==> (
                #[trigger] matrix@[y]@[x]).1 < class_of(b.data_type).spec_flat_basis().len(),
            collected.covers(size),
            group_wide(expression.view(), size),
            (GroupState { expression: expression.view(), contraction: collected.view() })
                == fold_columns(values, base as int, size, x as int, a, b),
        decreases columns - x,
    {
        let column = read_column(matrix, base, size, x);
        proof {
            assert forall|k: int| 0 <= k < column@.len() implies (#[trigger] column@[k]).1
                < class_of(b.data_type).spec_flat_basis().len() by {
                assert(values[base + k] == matrix@[base + k]@);
                assert(column@[k] == matrix@[base + k]@[x as int]);
            }
        }
        let next = take_column(expression, collected, &column, x, size, parameter_a, parameter_b);
        proof {
            reveal_with_fuel(fold_columns, 2);
        }
        expression = next.0;
        collected = next.1;
        x += 1;
    }
    let Collected { a: left, b: right, a_pairs, b_pairs, factors } = collected;
    proof {
        reveal(finish_group);
    }
    if some_factor_nonzero(&factors) {
        let left_gather = gather(size, left, a_pairs);
        let right_gather = gather(size, right, b_pairs);
        let coefficients = constant(size, factors);
        proof {
            lemma_lanes_agree(size, left.view(), right.view());
            lemma_lanes_agree(size, right.view(), left.view());
            lemma_lanes_agree(size, coefficients.view(), coefficients.view());
            lemma_lanes_agree(size, left_gather.view(), right_gather.view());
            lemma_lanes_agree(
                size,
                spec_multiply(size, left_gather.view(), right_gather.view()),
                coefficients.view(),
            );
            lemma_lanes_agree(
                size,
                expression.view(),
                spec_multiply(
                    size,
                    spec_multiply(size, left_gather.view(), right_gather.view()),
                    coefficients.view(),
                ),
            );
        }
        expression = sum(
            size,
            expression,
            multiply(size, multiply(size, left_gather, right_gather), coefficients),
        );
    }
    if expression.content.is_empty() {
        expression = constant(size, repeated(0isize, size));
        proof {
            lemma_lanes_agree(size, expression.view(), expression.view());
        }
    }
    let ghost total = expression.view();
    let simplified = simplify_and_legalize(Box::new(expression));
    proof {
        lemma_simplify_keeps_size(total);
    }
    *simplified
}

/// The signature of the result of a product.
fn result_signature(
    terms: &Vec<ProductTerm>,
    a_flat_basis: &Vec<BasisElement>,
    b_flat_basis: &Vec<BasisElement>,
) -> (signature: Vec<u16>)
    ensures
        signature@ == product_signature(terms@, a_flat_basis@, b_flat_basis@),
{
    let ghost held = |term: ProductTerm| operands_hold(a_flat_basis@, b_flat_basis@, term);
    let ghost index_of = |term: ProductTerm| term.product.index;
    let mut recorded: Vec<u16> = Vec::new();
    let mut i: usize = 0;
    proof {
        assert(terms@.take(0) =~= Seq::empty());
        terms@.take(0).lemma_filter_len(held);
        assert(terms@.take(0).filter(held).map_values(index_of) =~= Seq::empty());
    }
    while i < terms.len()
        invariant
            i <= terms.len(),
            held == |term: ProductTerm| operands_hold(a_flat_basis@, b_flat_basis@, term),
            index_of == |term: ProductTerm| term.product.index,
            recorded@ == terms@.take(i as int).filter(held).map_values(index_of),
        decreases terms.len() - i,
    {
        let term = terms[i];
        proof {
            assert(terms@.take(i as int + 1) =~= terms@.take(i as int).push(term));
            terms@.take(i as int).lemma_filter_push(term, held);
        }
        if position_of_index(a_flat_basis, term.factor_a.index).is_some() && position_of_index(
            b_flat_basis,
            term.factor_b.index,
        ).is_some() {
            recorded.push(term.product.index);
            assert(recorded@ =~= terms@.take(i as int + 1).filter(held).map_values(index_of));
        }
        i += 1;
    }
    assert(terms@.take(terms.len() as int) =~= terms@);
    sort_indices(&unique_indices(&recorded))
}

impl MultiVectorClass {
    /// The operation that multiplies two multivectors by the given product table. The
    /// result is the class with exactly the indices that can arise; the operation is
    /// `Empty` where no such class is registered.
    pub fn product<'a>(
        name: &'static str,
        product: &Product,
        parameter_a: &Parameter<'a>,
        parameter_b: &Parameter<'a>,
        registry: &'a MultiVectorClassRegistry,
    ) -> (node: AstNode<'a>)
        requires
            parameter_a.data_type is MultiVector,
            parameter_b.data_type is MultiVector,
            class_of(parameter_a.view().data_type).well_formed(),
            class_of(parameter_b.view().data_type).well_formed(),
            registry.valid(),
            unit_terms(product.terms@),
        ensures
            node.view() == spec_product_operation(
                name@,
                product.terms@,
                parameter_a.view(),
                parameter_b.view(),
                *registry,
            ),
    {
        let a_class = parameter_a.multi_vector_class();
        let b_class = parameter_b.multi_vector_class();
        let a_flat_basis = a_class.flat_basis();
        let b_flat_basis = b_class.flat_basis();
        let b_count: usize = b_flat_basis.len();
        let ghost terms = product.terms@;
        let signature = result_signature(&product.terms, &a_flat_basis, &b_flat_basis);
        let result_class = match registry.get(signature.as_slice()) {
            Some(class) => class,
            None => {
                return AstNode::Empty;
            },
        };
        proof {
            registry.lemma_found_class(signature@);
        }
        let result_flat_basis = result_class.flat_basis();
        let matrix = fill_matrix(&product.terms, &result_flat_basis, &a_flat_basis, &b_flat_basis);
        let ghost values = matrix_view(matrix@);
        let rows: usize = result_flat_basis.len();
        proof {
            lemma_group_in_flat(b_class.spec_groups(), 0, 0);
            assert forall|y: int, x: int|
                0 <= y < matrix@.len() && 0 <= x < matrix@[y]@.len() implies (
            #[trigger] matrix@[y]@[x]).1 < b_flat_basis@.len() by {
                lemma_matrix_entry_bound(
                    terms,
                    result_flat_basis@,
                    a_flat_basis@,
                    b_flat_basis@,
                    y,
                    x,
                );
            }
        }
        let mut body: Vec<(DataType<'a>, Expression<'a>)> = Vec::new();
        let ghost mut groups: Seq<ExpressionView> = Seq::empty();
        let mut base: usize = 0;
        let mut g: usize = 0;
        assert(result_class.spec_groups().take(0) =~= Seq::empty());
        while g < result_class.grouped_basis.len()
            invariant
                g <= result_class.grouped_basis.len(),
                result_class.well_formed(),
                result_flat_basis@ == result_class.spec_flat_basis(),
                matrix@.len() == result_flat_basis@.len(),
                values == matrix_view(matrix@),
                parameter_a.data_type is MultiVector,
                parameter_b.data_type is MultiVector,
                class_of(parameter_a.view().data_type).well_formed(),
                class_of(parameter_b.view().data_type).well_formed(),
                forall|y: int|
                    0 <= y < matrix@.len() ==> (#[trigger] matrix@[y])@.len() == class_of(
                        parameter_a.view().data_type,
                    ).spec_flat_basis().len(),
                forall|y: int, x: int|
                    0 <= y < matrix@.len() && 0 <= x < matrix@[y]@.len() ==> (
                    #[trigger] matrix@[y]@[x]).1 < class_of(
                        parameter_b.view().data_type,
                    ).spec_flat_basis().len(),
                base == group_offset(result_class.spec_groups(), g as int),
                rows == result_flat_basis@.len(),
                base <= rows,
                body@.len() == g,
                groups.len() == g,
                forall|i: int|
                    0 <= i < g ==> (#[trigger] body@[i]).1.view() == groups[i] && body@[i].0.view()
                        == DataTypeView::SimdVector(groups[i].size),
                forall|i: int|
                    0 <= i < g ==> groups[i] == spec_product_group(
                        values,
                        group_offset(result_class.spec_groups(), i) as int,
                        result_class.spec_groups()[i].len() as usize,
                        parameter_a.view(),
                        parameter_b.view(),
                    ),
            decreases result_class.grouped_basis.len() - g,
        {
            let size: usize = result_class.grouped_basis[g].len();
            proof {
                assert(result_class.grouped_basis@[g as int]@ == result_class.spec_groups()[g as int]);
                lemma_group_in_flat(result_class.spec_groups(), g as int, size - 1);
                assert(base + size <= rows);
            }
            let expression = product_group(&matrix, base, size, parameter_a, parameter_b);
            proof {
                groups = groups.push(expression.view());
            }
            body.push((DataType::SimdVector(size), expression));
            base += size;
            g += 1;
        }
        assert(groups =~= product_groups(
            terms,
            parameter_a.view(),
            parameter_b.view(),
            *result_class,
        ));
        let parameters = vec![*parameter_a, *parameter_b];
        assert(parameters_view(parameters@) =~= seq![parameter_a.view(), parameter_b.view()]);
        constructor_operation(name, result_class, parameters, body, Ghost(groups))
    }
}

/// Whether the state of a group is as wide as the group: the sum so far is, in all
/// its operands, and the operands of the contraction are variables or absent.
pub open spec fn state_wide(state: GroupState, size: usize) -> bool {
    &&& group_wide(state.expression, size)
    &&& (state.contraction.a.content is Empty || state.contraction.a.content is Variable)
    &&& (state.contraction.b.content is Empty || state.contraction.b.content is Variable)
}

/// A column leaves the state as wide as the group.
pub proof fn lemma_column_step_width(
    state: GroupState,
    column: Seq<Entry>,
    x: int,
    size: usize,
    a: ParameterView,
    b: ParameterView,
)
    requires
        state_wide(state, size),
    ensures
        state_wide(column_step(state, column, x, size, a, b), size),
{
    reveal(column_step);
    let next = column_step(state, column, x, size, a, b);
    if next.expression != state.expression {
        let a_class = class_of(a.data_type);
        let b_class = class_of(b.data_type);
        let a_place = place_of(a_class.spec_groups(), x);
        let b_pairs = right_pairs(column, b_class);
        let b_group = b_pairs[first_nonzero(column)].0;
        let a_size = a_class.spec_groups()[a_place.0 as int].len() as usize;
        let b_size = b_class.spec_groups()[b_group as int].len() as usize;
        let left = spec_gather(
            size,
            spec_variable(a.name, a_size),
            Seq::new(size as nat, |k: int| a_place),
        );
        let right = spec_gather(size, spec_variable(b.name, b_size), b_pairs);
        let constant = spec_constant(size, column.map_values(|entry: Entry| entry.0));
        let scaled = spec_multiply(size, right, constant);
        let term = spec_multiply(size, left, scaled);
        lemma_lanes_agree(size, spec_variable(a.name, a_size), spec_variable(b.name, b_size));
        lemma_lanes_agree(size, spec_variable(b.name, b_size), constant);
        lemma_lanes_agree(size, constant, constant);
        lemma_lanes_agree(size, right, constant);
        lemma_lanes_agree(size, left, scaled);
        lemma_lanes_agree(size, state.expression, term);
        assert(next.expression == spec_add(size, state.expression, term));
    }
}

/// All columns leave the state as wide as the group.
pub proof fn lemma_fold_columns_width(
    matrix: Seq<Seq<Entry>>,
    base: int,
    size: usize,
    columns: int,
    a: ParameterView,
    b: ParameterView,
)
    ensures
        state_wide(fold_columns(matrix, base, size, columns, a, b), size),
    decreases columns,
{
    reveal(fold_columns);
    if columns <= 0 {
        lemma_lanes_agree(size, empty_expression(size), empty_expression(size));
    } else {
        lemma_fold_columns_width(matrix, base, size, columns - 1, a, b);
        lemma_column_step_width(
            fold_columns(matrix, base, size, columns - 1, a, b),
            column_of(matrix, base, size, columns - 1),
            columns - 1,
            size,
            a,
            b,
        );
    }
}

/// The expression of a group is as wide as the group.
pub proof fn lemma_finish_group_width(state: GroupState, size: usize)
    requires
        state_wide(state, size),
    ensures
        finish_group(state, size).size == size,
{
    reveal(finish_group);
    let contraction = state.contraction;
    let left = spec_gather(size, contraction.a, contraction.a_pairs);
    let right = spec_gather(size, contraction.b, contraction.b_pairs);
    let constant = spec_constant(size, contraction.factors);
    let product = spec_multiply(size, left, right);
    let term = spec_multiply(size, product, constant);
    let zeros = spec_constant(size, Seq::new(size as nat, |k: int| 0isize));
    lemma_lanes_agree(size, contraction.a, contraction.b);
    lemma_lanes_agree(size, contraction.b, contraction.a);
    lemma_lanes_agree(size, constant, constant);
    lemma_lanes_agree(size, zeros, zeros);
    lemma_lanes_agree(size, left, right);
    lemma_lanes_agree(size, product, constant);
    lemma_lanes_agree(size, state.expression, term);
    let total = if any_nonzero(contraction.factors) {
        spec_add(size, state.expression, term)
    } else {
        state.expression
    };
    if total.content is Empty {
        lemma_simplify_keeps_size(zeros);
    } else {
        lemma_simplify_keeps_size(total);
    }
}

/// Every argument of the constructor of a product is as wide as the group of the
/// result that it fills.
pub proof fn lemma_product_group_width(
    terms: Seq<ProductTerm>,
    a: ParameterView,
    b: ParameterView,
    result: MultiVectorClass,
    g: int,
)
    requires
        0 <= g < result.spec_groups().len(),
    ensures
        product_groups(terms, a, b, result).len() == result.spec_groups().len(),
        product_groups(terms, a, b, result)[g].size == result.spec_groups()[g].len(),
{
    let matrix = spec_matrix(
        terms,
        result.spec_flat_basis(),
        class_of(a.data_type).spec_flat_basis(),
        class_of(b.data_type).spec_flat_basis(),
    );
    let base = group_offset(result.spec_groups(), g) as int;
    let size = result.spec_groups()[g].len() as usize;
    let columns = class_of(a.data_type).spec_flat_basis().len() as int;
    assert(result.grouped_basis@[g].len() == result.spec_groups()[g].len());
    lemma_fold_columns_width(matrix, base, size, columns, a, b);
    lemma_finish_group_width(fold_columns(matrix, base, size, columns, a, b), size);
}

} // verus!
