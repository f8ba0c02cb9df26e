//! What the synthesised products compute: for every lane of the result the sum, over
//! the lanes of the left operand, of coefficient times left lane times right lane, as
//! the sum-of-pairs matrix says. The contraction of columns and the simplifier change
//! the expression, not this value.

use vstd::prelude::*;
use crate::ast::{ContentView, ExpressionView, ParameterView};
use crate::class::{lemma_place_valid, place_of, MultiVectorClass};
use crate::compile::{
    class_of, element_wise_group, element_wise_lane, element_wise_operand, involution_group,
    involution_lane, lane_factor, lane_pair, last_source_group,
};
use crate::class::first_position;
use crate::class::{group_offset, lemma_group_in_flat};
use crate::algebra::BasisElement;
use crate::contraction::{
    all_zero, any_nonzero, column_of, column_step, finish_group, first_nonzero, fits_free_lanes,
    fold_columns, has_zero, initial_state, lemma_matrix_entry_bound, matrix_entry, product_groups,
    right_pairs, spec_matrix, spec_product_group, term_coefficient, term_place, Contraction,
    Entry, GroupState,
};
use crate::product::{
    distinct_keys, lemma_products_distinct_keys, same_key, spec_products, ProductTerm,
};
use crate::meaning::{
    group_values, lane_values, lemma_simplify_keeps_value,
    operand_fits, simplifies_safely, Environment,
};
use crate::simplify::{
    all_in_group, all_pairs, all_values, spec_simplify,
};
use crate::tree::{
    spec_add, spec_constant, spec_gather, spec_multiply, spec_subtract, spec_variable,
};

verus! {

/// Whether the groups of a value are as many and as wide as those of a class.
pub open spec fn laid_out(groups: Seq<Seq<int>>, class: MultiVectorClass) -> bool {
    &&& groups.len() == class.spec_groups().len()
    &&& forall|g: int|
        0 <= g < groups.len() ==> (#[trigger] groups[g]).len() == class.spec_groups()[g].len()
}

/// The lane of a variable at a place.
pub open spec fn pair_lane(environment: Environment, name: Seq<char>, pair: (usize, usize)) -> int {
    environment(name)[pair.0 as int][pair.1 as int]
}

/// The lane of an operand that stands for the element at position `x` of its flat basis.
pub open spec fn operand_lane(environment: Environment, operand: ParameterView, x: int) -> int {
    pair_lane(environment, operand.name, place_of(class_of(operand.data_type).spec_groups(), x))
}

/// The sum over the first `columns` entries of a row of the matrix: coefficient times
/// lane of the left operand times lane of the right operand.
pub open spec fn row_sum(
    row: Seq<Entry>,
    environment: Environment,
    a: ParameterView,
    b: ParameterView,
    columns: int,
) -> int
    decreases columns,
{
    if columns <= 0 {
        0
    } else {
        row_sum(row, environment, a, b, columns - 1) + row[columns - 1].0 * (operand_lane(
            environment,
            a,
            columns - 1,
        ) * operand_lane(environment, b, row[columns - 1].1 as int))
    }
}

/// What the contraction adds to a lane.
pub open spec fn contraction_lane(contraction: Contraction, environment: Environment, k: int) -> int {
    contraction.factors[k] * (group_values(contraction.a, environment)[contraction.a_pairs[k].0 as int][contraction.a_pairs[k].1 as int]
        * group_values(contraction.b, environment)[contraction.b_pairs[k].0 as int][contraction.b_pairs[k].1 as int])
}

/// What a lane holds so far: the sum and what the contraction adds.
pub open spec fn state_lane(state: GroupState, environment: Environment, k: int) -> int {
    lane_values(state.expression, environment)[k] + contraction_lane(
        state.contraction,
        environment,
        k,
    )
}

/// The width of a group of a class.
pub open spec fn width(class: MultiVectorClass, group: usize) -> nat {
    class.spec_groups()[group as int].len()
}

/// Whether a gather from a variable takes, where it takes a whole group, a group that
/// is as wide as itself.
pub open spec fn gather_fits(
    environment: Environment,
    name: Seq<char>,
    declared: usize,
    size: usize,
    pairs: Seq<(usize, usize)>,
) -> bool {
    declared == size && all_in_group(pairs, pairs[0].0) && !all_pairs(pairs, pairs[0])
        ==> environment(name)[pairs[0].0 as int].len() == size
}

/// A gather from a variable is simplified safely, to something that is neither absent
/// nor a constant, and computes the lanes that it gathers.
pub proof fn lemma_gather(
    environment: Environment,
    name: Seq<char>,
    declared: usize,
    size: usize,
    pairs: Seq<(usize, usize)>,
)
    requires
        size >= 1,
        pairs.len() == size,
        gather_fits(environment, name, declared, size, pairs),
    ensures
        ({
            let gather = spec_gather(size, spec_variable(name, declared), pairs);
            &&& simplifies_safely(gather, environment)
            &&& operand_fits(gather, size, environment)
            &&& !(spec_simplify(gather).content is Empty)
            &&& !(spec_simplify(gather).content is Constant)
            &&& forall|k: int|
                0 <= k < size ==> #[trigger] lane_values(gather, environment)[k] == pair_lane(
                    environment,
                    name,
                    pairs[k],
                )
        }),
{
    reveal_with_fuel(lane_values, 2);
    reveal_with_fuel(simplifies_safely, 2);
}

/// A constant with a value for every lane is simplified safely, to a constant, and
/// computes its values.
pub proof fn lemma_constant(environment: Environment, size: usize, values: Seq<isize>)
    requires
        values.len() == size,
    ensures
        ({
            let constant = spec_constant(size, values);
            &&& simplifies_safely(constant, environment)
            &&& operand_fits(constant, size, environment)
            &&& spec_simplify(constant).content is Constant
            &&& (spec_simplify(constant).content matches ContentView::Constant(_, kept)
                && forall|value: isize|
                all_values(kept, value) ==> all_values(values, value))
            &&& forall|k: int|
                0 <= k < size ==> #[trigger] lane_values(constant, environment)[k] == values[k]
        }),
{
    reveal_with_fuel(lane_values, 2);
    reveal_with_fuel(simplifies_safely, 2);
    let constant = spec_constant(size, values);
    match spec_simplify(constant).content {
        ContentView::Constant(_, kept) => {
            assert forall|value: isize| all_values(kept, value) implies all_values(
                values,
                value,
            ) by {
                if values.len() > 0 && all_values(values, values[0]) {
                    assert(kept[0] == values[0]);
                }
            }
        },
        _ => {},
    }
}

/// A product of two gathers from variables is simplified safely, to something that is
/// not absent, and computes the products of what they gather.
pub proof fn lemma_gather_product(
    environment: Environment,
    size: usize,
    a_name: Seq<char>,
    a_width: usize,
    a_pairs: Seq<(usize, usize)>,
    b_name: Seq<char>,
    b_width: usize,
    b_pairs: Seq<(usize, usize)>,
)
    requires
        size >= 1,
        a_pairs.len() == size,
        b_pairs.len() == size,
        gather_fits(environment, a_name, a_width, size, a_pairs),
        gather_fits(environment, b_name, b_width, size, b_pairs),
    ensures
        ({
            let product = spec_multiply(
                size,
                spec_gather(size, spec_variable(a_name, a_width), a_pairs),
                spec_gather(size, spec_variable(b_name, b_width), b_pairs),
            );
            &&& simplifies_safely(product, environment)
            &&& operand_fits(product, size, environment)
            &&& !(spec_simplify(product).content is Empty)
            &&& !(spec_simplify(product).content is Constant)
            &&& forall|k: int|
                0 <= k < size ==> #[trigger] lane_values(product, environment)[k] == pair_lane(
                    environment,
                    a_name,
                    a_pairs[k],
                ) * pair_lane(environment, b_name, b_pairs[k])
        }),
{
    lemma_gather(environment, a_name, a_width, size, a_pairs);
    lemma_gather(environment, b_name, b_width, size, b_pairs);
    let left = spec_gather(size, spec_variable(a_name, a_width), a_pairs);
    let right = spec_gather(size, spec_variable(b_name, b_width), b_pairs);
    let product = spec_multiply(size, left, right);
    assert(simplifies_safely(product, environment));
    assert(lane_values(product, environment) =~= Seq::new(
        size as nat,
        |k: int| lane_values(left, environment)[k] * lane_values(right, environment)[k],
    ));
}

/// A product of something with a constant that has a value for every lane, not all of
/// them zero, is simplified safely, to something that is not absent, and computes the
/// products.
pub proof fn lemma_scaled(
    environment: Environment,
    size: usize,
    operand: ExpressionView,
    values: Seq<isize>,
)
    requires
        size >= 1,
        values.len() == size,
        simplifies_safely(operand, environment),
        operand_fits(operand, size, environment),
        !(spec_simplify(operand).content is Empty),
        !(spec_simplify(operand).content is Constant),
    ensures
        ({
            let product = spec_multiply(size, operand, spec_constant(size, values));
            &&& simplifies_safely(product, environment)
            &&& operand_fits(product, size, environment)
            &&& !all_values(values, 0) ==> !(spec_simplify(product).content is Empty)
            &&& forall|k: int|
                0 <= k < size ==> #[trigger] lane_values(product, environment)[k] == lane_values(
                    operand,
                    environment,
                )[k] * values[k]
        }),
{
    lemma_constant(environment, size, values);
    let constant = spec_constant(size, values);
    let product = spec_multiply(size, operand, constant);
    assert(simplifies_safely(product, environment));
    assert(lane_values(product, environment) =~= Seq::new(
        size as nat,
        |k: int| lane_values(operand, environment)[k] * lane_values(constant, environment)[k],
    ));
}

/// The term of a column: the lane of the left operand, in all lanes, times the lanes
/// of the right operand, times the coefficients.
pub open spec fn column_term(
    size: usize,
    a_name: Seq<char>,
    a_width: usize,
    a_place: (usize, usize),
    b_name: Seq<char>,
    b_width: usize,
    b_pairs: Seq<(usize, usize)>,
    coefficients: Seq<isize>,
) -> ExpressionView {
    spec_multiply(
        size,
        spec_gather(size, spec_variable(a_name, a_width), Seq::new(size as nat, |k: int| a_place)),
        spec_multiply(
            size,
            spec_gather(size, spec_variable(b_name, b_width), b_pairs),
            spec_constant(size, coefficients),
        ),
    )
}

/// A sum with the term of a column is simplified safely and computes the sum plus, in
/// every lane, coefficient times left lane times right lane.
pub proof fn lemma_term(
    environment: Environment,
    size: usize,
    sum: ExpressionView,
    a_name: Seq<char>,
    a_width: usize,
    a_place: (usize, usize),
    b_name: Seq<char>,
    b_width: usize,
    b_pairs: Seq<(usize, usize)>,
    coefficients: Seq<isize>,
)
    requires
        size >= 1,
        b_pairs.len() == size,
        coefficients.len() == size,
        !all_values(coefficients, 0),
        simplifies_safely(sum, environment),
        operand_fits(sum, size, environment),
        gather_fits(environment, b_name, b_width, size, b_pairs),
    ensures
        ({
            let next = spec_add(
                size,
                sum,
                column_term(size, a_name, a_width, a_place, b_name, b_width, b_pairs, coefficients),
            );
            &&& simplifies_safely(next, environment)
            &&& operand_fits(next, size, environment)
            &&& forall|k: int|
                0 <= k < size ==> #[trigger] lane_values(next, environment)[k] == lane_values(
                    sum,
                    environment,
                )[k] + coefficients[k] * (pair_lane(environment, a_name, a_place) * pair_lane(
                    environment,
                    b_name,
                    b_pairs[k],
                ))
        }),
{
    let a_pairs = Seq::new(size as nat, |k: int| a_place);
    let left = spec_gather(size, spec_variable(a_name, a_width), a_pairs);
    let right = spec_gather(size, spec_variable(b_name, b_width), b_pairs);
    let constant = spec_constant(size, coefficients);
    let scaled = spec_multiply(size, right, constant);
    let term = spec_multiply(size, left, scaled);
    let next = spec_add(size, sum, term);
    assert(all_pairs(a_pairs, a_pairs[0]));
    lemma_gather(environment, a_name, a_width, size, a_pairs);
    lemma_gather(environment, b_name, b_width, size, b_pairs);
    lemma_constant(environment, size, coefficients);
    lemma_scaled(environment, size, right, coefficients);
    lemma_gather_product(environment, size, a_name, a_width, a_pairs, b_name, b_width, b_pairs);
    assert(simplifies_safely(term, environment));
    assert(lane_values(term, environment) =~= Seq::new(
        size as nat,
        |k: int| lane_values(left, environment)[k] * lane_values(scaled, environment)[k],
    ));
    assert(operand_fits(term, size, environment));
    assert(term == column_term(
        size,
        a_name,
        a_width,
        a_place,
        b_name,
        b_width,
        b_pairs,
        coefficients,
    ));
    assert(simplifies_safely(next, environment));
    assert(lane_values(next, environment) =~= Seq::new(
        size as nat,
        |k: int| lane_values(sum, environment)[k] + lane_values(term, environment)[k],
    ));
    assert forall|k: int| 0 <= k < size implies #[trigger] lane_values(next, environment)[k]
        == lane_values(sum, environment)[k] + coefficients[k] * (pair_lane(
        environment,
        a_name,
        a_place,
    ) * pair_lane(environment, b_name, b_pairs[k])) by {
        let x = pair_lane(environment, a_name, a_place);
        let y = pair_lane(environment, b_name, b_pairs[k]);
        let c = coefficients[k] as int;
        assert(lane_values(left, environment)[k] == x);
        assert(lane_values(scaled, environment)[k] == y * c);
        assert(x * (y * c) == c * (x * y)) by (nonlinear_arith);
    }
}

/// Whether the contraction is either not begun, with nothing in it, or begun: then
/// its operands are the two variables, every lane of the left operand comes from a
/// group that is as wide as the left variable says, and some lane that holds a factor
/// takes the right operand from a group that is as wide as the right variable says.
pub open spec fn contraction_ok(
    contraction: Contraction,
    size: usize,
    a: ParameterView,
    b: ParameterView,
) -> bool {
    let a_class = class_of(a.data_type);
    let b_class = class_of(b.data_type);
    &&& contraction.a_pairs.len() == size
    &&& contraction.b_pairs.len() == size
    &&& contraction.factors.len() == size
    &&& if contraction.a.content is Empty {
        all_values(contraction.factors, 0)
    } else {
        &&& contraction.a == spec_variable(a.name, contraction.a.size)
        &&& contraction.b == spec_variable(b.name, contraction.b.size)
        &&& forall|k: int|
            0 <= k < size ==> (#[trigger] contraction.a_pairs[k]).0 < a_class.spec_groups().len()
                && width(a_class, contraction.a_pairs[k].0) == contraction.a.size
        &&& exists|k: int|
            0 <= k < size && #[trigger] contraction.factors[k] != 0 && contraction.b_pairs[k].0
                < b_class.spec_groups().len() && width(b_class, contraction.b_pairs[k].0)
                == contraction.b.size
    }
}

/// Whether the sum so far is simplified safely and as wide as the group, and the
/// contraction in order.
pub open spec fn state_ok(
    state: GroupState,
    environment: Environment,
    size: usize,
    a: ParameterView,
    b: ParameterView,
) -> bool {
    &&& operand_fits(state.expression, size, environment)
    &&& simplifies_safely(state.expression, environment)
    &&& contraction_ok(state.contraction, size, a, b)
}

/// Whether the operands are well-formed classes and the variables laid out as they.
pub open spec fn operands_ok(environment: Environment, a: ParameterView, b: ParameterView) -> bool {
    &&& class_of(a.data_type).well_formed()
    &&& class_of(b.data_type).well_formed()
    &&& laid_out(environment(a.name), class_of(a.data_type))
    &&& laid_out(environment(b.name), class_of(b.data_type))
}

/// Whether a column has an entry for each lane of a group and names positions of the
/// right operand.
pub open spec fn column_ok(column: Seq<Entry>, size: usize, b: ParameterView) -> bool {
    &&& column.len() == size
    &&& forall|k: int|
        0 <= k < size ==> (#[trigger] column[k]).1 < class_of(
            b.data_type,
        ).spec_flat_basis().len()
}

/// A column that is not all zero has a first lane that is not zero.
pub proof fn lemma_first_nonzero(column: Seq<Entry>)
    requires
        !all_zero(column),
    ensures
        0 <= first_nonzero(column) < column.len(),
        column[first_nonzero(column)].0 != 0,
        forall|j: int| 0 <= j < first_nonzero(column) ==> (#[trigger] column[j]).0 == 0,
{
    lemma_least_nonzero(column, 0);
}

proof fn lemma_least_nonzero(column: Seq<Entry>, from: int)
    requires
        0 <= from <= column.len(),
        forall|j: int| 0 <= j < from ==> (#[trigger] column[j]).0 == 0,
        exists|k: int| from <= k < column.len() && (#[trigger] column[k]).0 != 0,
    ensures
        exists|m: int|
            0 <= m < column.len() && (#[trigger] column[m]).0 != 0 && forall|j: int|
                0 <= j < m ==> (#[trigger] column[j]).0 == 0,
    decreases column.len() - from,
{
    if column[from].0 != 0 {
    } else {
        let k = choose|k: int| from <= k < column.len() && (#[trigger] column[k]).0 != 0;
        assert(from + 1 <= k);
        lemma_least_nonzero(column, from + 1);
    }
}

/// The places that the lanes of a column take the right operand from are places of
/// the right operand; a lane with a coefficient takes the element that its entry names.
pub proof fn lemma_right_pairs(column: Seq<Entry>, size: usize, b: ParameterView)
    requires
        !all_zero(column),
        column_ok(column, size, b),
        class_of(b.data_type).well_formed(),
    ensures
        right_pairs(column, class_of(b.data_type)).len() == size,
        forall|k: int|
            0 <= k < size ==> {
                let pair = #[trigger] right_pairs(column, class_of(b.data_type))[k];
                &&& pair.0 < class_of(b.data_type).spec_groups().len()
                &&& pair.1 < width(class_of(b.data_type), pair.0)
                &&& column[k].0 != 0 ==> pair == place_of(
                    class_of(b.data_type).spec_groups(),
                    column[k].1 as int,
                )
            },
{
    lemma_first_nonzero(column);
    let class = class_of(b.data_type);
    let lane = first_nonzero(column);
    assert forall|k: int| 0 <= k < size implies {
        let pair = #[trigger] right_pairs(column, class)[k];
        &&& pair.0 < class.spec_groups().len()
        &&& pair.1 < width(class, pair.0)
        &&& column[k].0 != 0 ==> pair == place_of(class.spec_groups(), column[k].1 as int)
    } by {
        let source = if column[k].0 == 0 {
            column[lane].1 as int
        } else {
            column[k].1 as int
        };
        assert(column[lane].1 < class.spec_flat_basis().len());
        assert(column[k].1 < class.spec_flat_basis().len());
        lemma_class_bounds(class);
        lemma_place_valid(class.spec_groups(), source);
    }
}

/// The groups of a class are no more and no wider than a machine can count.
pub proof fn lemma_class_bounds(class: MultiVectorClass)
    ensures
        class.spec_groups().len() <= usize::MAX,
        forall|g: int|
            0 <= g < class.spec_groups().len() ==> (#[trigger] class.spec_groups()[g]).len()
                <= usize::MAX,
{
    assert(class.grouped_basis.len() == class.grouped_basis@.len());
    assert forall|g: int| 0 <= g < class.spec_groups().len() implies (
    #[trigger] class.spec_groups()[g]).len() <= usize::MAX by {
        assert(class.spec_groups()[g] == class.grouped_basis@[g]@);
        assert(class.grouped_basis@[g].len() == class.grouped_basis@[g]@.len());
    }
}

/// What a column adds to a lane: coefficient times left lane times right lane.
pub open spec fn column_lane(
    column: Seq<Entry>,
    x: int,
    environment: Environment,
    a: ParameterView,
    b: ParameterView,
    k: int,
) -> int {
    column[k].0 * (operand_lane(environment, a, x) * operand_lane(
        environment,
        b,
        column[k].1 as int,
    ))
}

/// Whether a column joins the contraction.
pub open spec fn joins_contraction(
    state: GroupState,
    column: Seq<Entry>,
    x: int,
    a: ParameterView,
    b: ParameterView,
) -> bool {
    let a_class = class_of(a.data_type);
    let b_class = class_of(b.data_type);
    let a_place = place_of(a_class.spec_groups(), x);
    let b_group = right_pairs(column, b_class)[first_nonzero(column)].0;
    let a_size = a_class.spec_groups()[a_place.0 as int].len() as usize;
    let b_size = b_class.spec_groups()[b_group as int].len() as usize;
    let old = state.contraction;
    fits_free_lanes(column, old.factors) && (old.a.content is Empty || old.a.size == a_size) && (
    old.b.content is Empty || old.b.size == b_size) && has_zero(column)
}

/// A column of zeros changes nothing.
proof fn lemma_column_skipped(
    state: GroupState,
    column: Seq<Entry>,
    x: int,
    size: usize,
    environment: Environment,
    a: ParameterView,
    b: ParameterView,
)
    requires
        all_zero(column),
        column.len() == size,
    ensures
        column_step(state, column, x, size, a, b) == state,
        forall|k: int| 0 <= k < size ==> #[trigger] column_lane(column, x, environment, a, b, k) == 0,
{
    reveal(column_step);
    assert forall|k: int| 0 <= k < size implies #[trigger] column_lane(
        column,
        x,
        environment,
        a,
        b,
        k,
    ) == 0 by {
        let y = operand_lane(environment, a, x) * operand_lane(environment, b, column[k].1 as int);
        assert(column[k].0 == 0);
        assert(0 * y == 0) by (nonlinear_arith);
    }
}

/// A column that becomes a term of the sum.
proof fn lemma_column_added(
    state: GroupState,
    column: Seq<Entry>,
    x: int,
    size: usize,
    environment: Environment,
    a: ParameterView,
    b: ParameterView,
)
    requires
        size >= 1,
        !all_zero(column),
        !joins_contraction(state, column, x, a, b),
        column_ok(column, size, b),
        operands_ok(environment, a, b),
        state_ok(state, environment, size, a, b),
        0 <= x < class_of(a.data_type).spec_flat_basis().len(),
    ensures
        state_ok(column_step(state, column, x, size, a, b), environment, size, a, b),
        forall|k: int|
            0 <= k < size ==> #[trigger] state_lane(
                column_step(state, column, x, size, a, b),
                environment,
                k,
            ) == state_lane(state, environment, k) + column_lane(column, x, environment, a, b, k),
{
    reveal(column_step);
    let a_class = class_of(a.data_type);
    let b_class = class_of(b.data_type);
    let a_place = place_of(a_class.spec_groups(), x);
    let b_pairs = right_pairs(column, b_class);
    let lane = first_nonzero(column);
    let b_group = b_pairs[lane].0;
    let a_size = a_class.spec_groups()[a_place.0 as int].len() as usize;
    let b_size = b_class.spec_groups()[b_group as int].len() as usize;
    let coefficients = column.map_values(|entry: Entry| entry.0);
    let next = column_step(state, column, x, size, a, b);
    lemma_first_nonzero(column);
    lemma_right_pairs(column, size, b);
    lemma_class_bounds(a_class);
    lemma_class_bounds(b_class);
    lemma_place_valid(a_class.spec_groups(), x);
    assert(!all_values(coefficients, 0)) by {
        assert(coefficients[lane] == column[lane].0);
    }
    assert(gather_fits(environment, b.name, b_size, size, b_pairs)) by {
        if b_size == size && all_in_group(b_pairs, b_pairs[0].0) {
            assert(b_pairs[lane].0 == b_pairs[0].0);
            assert(environment(b.name)[b_group as int].len() == b_class.spec_groups()[b_group as int].len());
        }
    }
    lemma_term(
        environment,
        size,
        state.expression,
        a.name,
        a_size,
        a_place,
        b.name,
        b_size,
        b_pairs,
        coefficients,
    );
    assert(next.expression == spec_add(
        size,
        state.expression,
        column_term(size, a.name, a_size, a_place, b.name, b_size, b_pairs, coefficients),
    ));
    assert(next.contraction == state.contraction);
    assert forall|k: int| 0 <= k < size implies #[trigger] state_lane(next, environment, k)
        == state_lane(state, environment, k) + column_lane(column, x, environment, a, b, k) by {
        let c = column[k].0 as int;
        let p = pair_lane(environment, a.name, a_place);
        let q = pair_lane(environment, b.name, b_pairs[k]);
        let r = operand_lane(environment, b, column[k].1 as int);
        assert(coefficients[k] == c);
        assert(lane_values(next.expression, environment)[k] == lane_values(
            state.expression,
            environment,
        )[k] + c * (p * q));
        if c == 0 {
            assert(0 * (p * q) == 0 && 0 * (p * r) == 0) by (nonlinear_arith);
        } else {
            assert(b_pairs[k] == place_of(b_class.spec_groups(), column[k].1 as int));
        }
    }
}

/// A column that joins the contraction.
proof fn lemma_column_joined(
    state: GroupState,
    column: Seq<Entry>,
    x: int,
    size: usize,
    environment: Environment,
    a: ParameterView,
    b: ParameterView,
)
    requires
        size >= 1,
        !all_zero(column),
        joins_contraction(state, column, x, a, b),
        column_ok(column, size, b),
        operands_ok(environment, a, b),
        state_ok(state, environment, size, a, b),
        0 <= x < class_of(a.data_type).spec_flat_basis().len(),
    ensures
        state_ok(column_step(state, column, x, size, a, b), environment, size, a, b),
        forall|k: int|
            0 <= k < size ==> #[trigger] state_lane(
                column_step(state, column, x, size, a, b),
                environment,
                k,
            ) == state_lane(state, environment, k) + column_lane(column, x, environment, a, b, k),
{
    reveal(column_step);
    let a_class = class_of(a.data_type);
    let b_class = class_of(b.data_type);
    let a_place = place_of(a_class.spec_groups(), x);
    let b_pairs = right_pairs(column, b_class);
    let lane = first_nonzero(column);
    let b_group = b_pairs[lane].0;
    let a_size = a_class.spec_groups()[a_place.0 as int].len() as usize;
    let b_size = b_class.spec_groups()[b_group as int].len() as usize;
    let old = state.contraction;
    let fresh = old.a.content is Empty;
    let next = column_step(state, column, x, size, a, b);
    let new = next.contraction;
    lemma_first_nonzero(column);
    lemma_right_pairs(column, size, b);
    lemma_class_bounds(a_class);
    lemma_class_bounds(b_class);
    lemma_place_valid(a_class.spec_groups(), x);
    assert(next.expression == state.expression);
    assert(new.a == spec_variable(a.name, a_size));
    assert(new.b == spec_variable(b.name, b_size));
    assert(new.factors[lane] == column[lane].0);
    assert(new.b_pairs[lane] == b_pairs[lane]);
    assert(contraction_ok(new, size, a, b)) by {
        assert forall|k: int| 0 <= k < size implies (#[trigger] new.a_pairs[k]).0
            < a_class.spec_groups().len() && width(a_class, new.a_pairs[k].0) == new.a.size by {
            if column[k].0 == 0 && !fresh {
                assert(new.a_pairs[k] == old.a_pairs[k]);
            }
        }
    }
    assert forall|k: int| 0 <= k < size implies #[trigger] state_lane(next, environment, k)
        == state_lane(state, environment, k) + column_lane(column, x, environment, a, b, k) by {
        let c = column[k].0 as int;
        let p = operand_lane(environment, a, x);
        let r = operand_lane(environment, b, column[k].1 as int);
        let before = contraction_lane(old, environment, k);
        let after = contraction_lane(new, environment, k);
        if c == 0 {
            assert(0 * (p * r) == 0) by (nonlinear_arith);
            assert(new.factors[k] == old.factors[k]);
            if fresh {
                assert(old.factors[k] == 0);
                let u = group_values(new.a, environment)[new.a_pairs[k].0 as int][new.a_pairs[k].1 as int]
                    * group_values(new.b, environment)[new.b_pairs[k].0 as int][new.b_pairs[k].1 as int];
                let v = group_values(old.a, environment)[old.a_pairs[k].0 as int][old.a_pairs[k].1 as int]
                    * group_values(old.b, environment)[old.b_pairs[k].0 as int][old.b_pairs[k].1 as int];
                assert(0 * u == 0 && 0 * v == 0) by (nonlinear_arith);
            } else {
                assert(new.a_pairs[k] == old.a_pairs[k]);
                assert(new.b_pairs[k] == old.b_pairs[k]);
                assert(new.a == old.a);
                assert(new.b == old.b);
            }
            assert(after == before);
        } else {
            assert(old.factors[k] == 0);
            let v = group_values(old.a, environment)[old.a_pairs[k].0 as int][old.a_pairs[k].1 as int]
                * group_values(old.b, environment)[old.b_pairs[k].0 as int][old.b_pairs[k].1 as int];
            assert(0 * v == 0) by (nonlinear_arith);
            assert(before == 0);
            assert(new.factors[k] == c);
            assert(new.a_pairs[k] == a_place);
            assert(new.b_pairs[k] == place_of(b_class.spec_groups(), column[k].1 as int));
            assert(after == c * (p * r));
        }
    }
}

/// Every column adds to every lane coefficient times left lane times right lane,
/// whether it joins the contraction or becomes a term of the sum.
pub proof fn lemma_column_step(
    state: GroupState,
    column: Seq<Entry>,
    x: int,
    size: usize,
    environment: Environment,
    a: ParameterView,
    b: ParameterView,
)
    requires
        size >= 1,
        column_ok(column, size, b),
        operands_ok(environment, a, b),
        state_ok(state, environment, size, a, b),
        0 <= x < class_of(a.data_type).spec_flat_basis().len(),
    ensures
        state_ok(column_step(state, column, x, size, a, b), environment, size, a, b),
        forall|k: int|
            0 <= k < size ==> #[trigger] state_lane(
                column_step(state, column, x, size, a, b),
                environment,
                k,
            ) == state_lane(state, environment, k) + column_lane(column, x, environment, a, b, k),
{
    if all_zero(column) {
        lemma_column_skipped(state, column, x, size, environment, a, b);
    } else if joins_contraction(state, column, x, a, b) {
        lemma_column_joined(state, column, x, size, environment, a, b);
    } else {
        lemma_column_added(state, column, x, size, environment, a, b);
    }
}

/// Whether the rows of a group of the matrix have an entry for each element of the
/// left operand, each naming a position of the right operand.
pub open spec fn rows_ok(
    matrix: Seq<Seq<Entry>>,
    base: int,
    size: usize,
    a: ParameterView,
    b: ParameterView,
) -> bool {
    &&& 0 <= base
    &&& base + size <= matrix.len()
    &&& forall|y: int|
        base <= y < base + size ==> (#[trigger] matrix[y]).len() == class_of(
            a.data_type,
        ).spec_flat_basis().len()
    &&& forall|y: int, x: int|
        base <= y < base + size && 0 <= x < matrix[y].len() ==> (#[trigger] matrix[y][x]).1
            < class_of(b.data_type).spec_flat_basis().len()
}

/// Before the first column every lane is zero.
proof fn lemma_initial_state(size: usize, environment: Environment, a: ParameterView, b: ParameterView)
    ensures
        state_ok(initial_state(size), environment, size, a, b),
        forall|k: int|
            0 <= k < size ==> #[trigger] state_lane(initial_state(size), environment, k) == 0,
{
    let state = initial_state(size);
    reveal_with_fuel(lane_values, 2);
    assert forall|k: int| 0 <= k < size implies #[trigger] state_lane(state, environment, k)
        == 0 by {
        let contraction = state.contraction;
        let v = group_values(contraction.a, environment)[contraction.a_pairs[k].0 as int][contraction.a_pairs[k].1 as int]
            * group_values(contraction.b, environment)[contraction.b_pairs[k].0 as int][contraction.b_pairs[k].1 as int];
        assert(contraction.factors[k] == 0);
        assert(0 * v == 0) by (nonlinear_arith);
    }
}

/// After any number of columns every lane holds the sum of its row over these columns.
pub proof fn lemma_fold_columns(
    matrix: Seq<Seq<Entry>>,
    base: int,
    size: usize,
    columns: int,
    environment: Environment,
    a: ParameterView,
    b: ParameterView,
)
    requires
        size >= 1,
        operands_ok(environment, a, b),
        rows_ok(matrix, base, size, a, b),
        0 <= columns <= class_of(a.data_type).spec_flat_basis().len(),
    ensures
        state_ok(fold_columns(matrix, base, size, columns, a, b), environment, size, a, b),
        forall|k: int|
            0 <= k < size ==> #[trigger] state_lane(
                fold_columns(matrix, base, size, columns, a, b),
                environment,
                k,
            ) == row_sum(matrix[base + k], environment, a, b, columns),
    decreases columns,
{
    reveal_with_fuel(fold_columns, 2);
    if columns == 0 {
        lemma_initial_state(size, environment, a, b);
    } else {
        let before = fold_columns(matrix, base, size, columns - 1, a, b);
        let column = column_of(matrix, base, size, columns - 1);
        lemma_fold_columns(matrix, base, size, columns - 1, environment, a, b);
        assert(column_ok(column, size, b)) by {
            assert forall|k: int| 0 <= k < size implies (#[trigger] column[k]).1 < class_of(
                b.data_type,
            ).spec_flat_basis().len() by {
                assert(column[k] == matrix[base + k][columns - 1]);
            }
        }
        lemma_column_step(before, column, columns - 1, size, environment, a, b);
        let after = fold_columns(matrix, base, size, columns, a, b);
        assert(after == column_step(before, column, columns - 1, size, a, b));
        assert forall|k: int| 0 <= k < size implies #[trigger] state_lane(after, environment, k)
            == row_sum(matrix[base + k], environment, a, b, columns) by {
            assert(column[k] == matrix[base + k][columns - 1]);
            assert(state_lane(after, environment, k) == state_lane(before, environment, k)
                + column_lane(column, columns - 1, environment, a, b, k));
        }
    }
}

/// Finishing a group keeps what its lanes hold.
pub proof fn lemma_finish_group(
    state: GroupState,
    size: usize,
    environment: Environment,
    a: ParameterView,
    b: ParameterView,
)
    requires
        size >= 1,
        operands_ok(environment, a, b),
        state_ok(state, environment, size, a, b),
    ensures
        lane_values(finish_group(state, size), environment).len() == size,
        forall|k: int|
            0 <= k < size ==> #[trigger] lane_values(finish_group(state, size), environment)[k]
                == state_lane(state, environment, k),
{
    reveal(finish_group);
    let contraction = state.contraction;
    let a_class = class_of(a.data_type);
    let b_class = class_of(b.data_type);
    let zeros = spec_constant(size, Seq::new(size as nat, |k: int| 0isize));
    lemma_constant(environment, size, Seq::new(size as nat, |k: int| 0isize));
    if any_nonzero(contraction.factors) {
        let gathered = spec_multiply(
            size,
            spec_gather(size, contraction.a, contraction.a_pairs),
            spec_gather(size, contraction.b, contraction.b_pairs),
        );
        let term = spec_multiply(size, gathered, spec_constant(size, contraction.factors));
        let total = spec_add(size, state.expression, term);
        assert(!all_values(contraction.factors, 0));
        assert(gather_fits(
            environment,
            a.name,
            contraction.a.size,
            size,
            contraction.a_pairs,
        )) by {
            assert(contraction.a_pairs[0].0 < a_class.spec_groups().len());
            assert(width(a_class, contraction.a_pairs[0].0) == contraction.a.size);
        }
        assert(gather_fits(
            environment,
            b.name,
            contraction.b.size,
            size,
            contraction.b_pairs,
        )) by {
            let k0 = choose|k: int|
                0 <= k < size && #[trigger] contraction.factors[k] != 0 && contraction.b_pairs[k].0
                    < b_class.spec_groups().len() && width(b_class, contraction.b_pairs[k].0)
                    == contraction.b.size;
            if all_in_group(contraction.b_pairs, contraction.b_pairs[0].0) {
                assert(contraction.b_pairs[k0].0 == contraction.b_pairs[0].0);
            }
        }
        lemma_gather_product(
            environment,
            size,
            a.name,
            contraction.a.size,
            contraction.a_pairs,
            b.name,
            contraction.b.size,
            contraction.b_pairs,
        );
        lemma_scaled(environment, size, gathered, contraction.factors);
        assert(simplifies_safely(total, environment));
        reveal_with_fuel(lane_values, 2);
        assert(lane_values(total, environment) =~= Seq::new(
            size as nat,
            |k: int| lane_values(state.expression, environment)[k] + lane_values(
                term,
                environment,
            )[k],
        ));
        lemma_simplify_keeps_value(total, environment);
        assert forall|k: int| 0 <= k < size implies #[trigger] lane_values(
            finish_group(state, size),
            environment,
        )[k] == state_lane(state, environment, k) by {
            let p = pair_lane(environment, a.name, contraction.a_pairs[k]);
            let q = pair_lane(environment, b.name, contraction.b_pairs[k]);
            let f = contraction.factors[k] as int;
            assert(lane_values(term, environment)[k] == (p * q) * f);
            assert((p * q) * f == f * (p * q)) by (nonlinear_arith);
        }
    } else {
        assert forall|k: int| 0 <= k < size implies #[trigger] contraction_lane(
            contraction,
            environment,
            k,
        ) == 0 by {
            let v = group_values(contraction.a, environment)[contraction.a_pairs[k].0 as int][contraction.a_pairs[k].1 as int]
                * group_values(contraction.b, environment)[contraction.b_pairs[k].0 as int][contraction.b_pairs[k].1 as int];
            assert(contraction.factors[k] == 0);
            assert(0 * v == 0) by (nonlinear_arith);
        }
        if state.expression.content is Empty {
            reveal_with_fuel(lane_values, 2);
            lemma_simplify_keeps_value(zeros, environment);
        } else {
            lemma_simplify_keeps_value(state.expression, environment);
        }
    }
}

/// The expression of a group of a product computes, in every lane, the sum of the row
/// of that lane over all elements of the left operand: coefficient times left lane
/// times right lane.
pub proof fn lemma_product_group_value(
    matrix: Seq<Seq<Entry>>,
    base: int,
    size: usize,
    environment: Environment,
    a: ParameterView,
    b: ParameterView,
)
    requires
        size >= 1,
        operands_ok(environment, a, b),
        rows_ok(matrix, base, size, a, b),
    ensures
        lane_values(spec_product_group(matrix, base, size, a, b), environment).len() == size,
        forall|k: int|
            0 <= k < size ==> #[trigger] lane_values(
                spec_product_group(matrix, base, size, a, b),
                environment,
            )[k] == row_sum(
                matrix[base + k],
                environment,
                a,
                b,
                class_of(a.data_type).spec_flat_basis().len() as int,
            ),
{
    let columns = class_of(a.data_type).spec_flat_basis().len() as int;
    lemma_fold_columns(matrix, base, size, columns, environment, a, b);
    lemma_finish_group(
        fold_columns(matrix, base, size, columns, a, b),
        size,
        environment,
        a,
        b,
    );
}

/// The product of two multivectors, lane by lane: lane `k` of group `g` of the result
/// is the sum, over the elements of the left operand, of the coefficient that the
/// matrix holds for the lane and the element, times the lane of the left operand, times
/// the lane of the right operand that the matrix names.
pub proof fn lemma_product_value(
    terms: Seq<ProductTerm>,
    a: ParameterView,
    b: ParameterView,
    result: MultiVectorClass,
    environment: Environment,
    g: int,
    k: int,
)
    requires
        operands_ok(environment, a, b),
        class_of(b.data_type).spec_flat_basis().len() <= usize::MAX,
        result.well_formed(),
        0 <= g < result.spec_groups().len(),
        0 <= k < result.spec_groups()[g].len(),
    ensures
        ({
            let a_flat = class_of(a.data_type).spec_flat_basis();
            let b_flat = class_of(b.data_type).spec_flat_basis();
            let matrix = spec_matrix(terms, result.spec_flat_basis(), a_flat, b_flat);
            let y = group_offset(result.spec_groups(), g) + k;
            &&& 0 <= y < result.spec_flat_basis().len()
            &&& result.spec_flat_basis()[y] == result.spec_groups()[g][k]
            &&& forall|x: int|
                0 <= x < a_flat.len() ==> #[trigger] matrix[y][x] == matrix_entry(
                    terms,
                    result.spec_flat_basis(),
                    a_flat,
                    b_flat,
                    y,
                    x,
                )
            &&& lane_values(product_groups(terms, a, b, result)[g], environment)[k] == row_sum(
                matrix[y],
                environment,
                a,
                b,
                a_flat.len() as int,
            )
        }),
{
    let a_flat = class_of(a.data_type).spec_flat_basis();
    let b_flat = class_of(b.data_type).spec_flat_basis();
    let groups = result.spec_groups();
    let matrix = spec_matrix(terms, result.spec_flat_basis(), a_flat, b_flat);
    let base = group_offset(groups, g) as int;
    lemma_class_bounds(result);
    lemma_class_bounds(class_of(b.data_type));
    let size = groups[g].len() as usize;
    lemma_group_in_flat(groups, g, k);
    lemma_group_in_flat(groups, g, size - 1);
    lemma_group_in_flat(class_of(b.data_type).spec_groups(), 0, 0);
    assert(rows_ok(matrix, base, size, a, b)) by {
        assert forall|y: int, x: int|
            base <= y < base + size && 0 <= x < matrix[y].len() implies (
        #[trigger] matrix[y][x]).1 < b_flat.len() by {
            lemma_matrix_entry_bound(terms, result.spec_flat_basis(), a_flat, b_flat, y, x);
        }
    }
    lemma_product_group_value(matrix, base, size, environment, a, b);
}

/// What an entry adds to the sum of its row.
pub open spec fn entry_value(
    entry: Entry,
    x: int,
    environment: Environment,
    a: ParameterView,
    b: ParameterView,
) -> int {
    entry.0 * (operand_lane(environment, a, x) * operand_lane(environment, b, entry.1 as int))
}

/// What a term of the product table adds to lane `y` of the result: nothing unless
/// the result holds its product at `y` and the operands hold its factors, and then its
/// coefficient times the lanes of the two factors.
pub open spec fn term_value(
    term: ProductTerm,
    result: Seq<BasisElement>,
    environment: Environment,
    a: ParameterView,
    b: ParameterView,
    y: int,
) -> int {
    let a_flat = class_of(a.data_type).spec_flat_basis();
    let b_flat = class_of(b.data_type).spec_flat_basis();
    match term_place(term, result, a_flat, b_flat) {
        Some(place) => if place.0 == y {
            term_coefficient(term, result[y], a_flat[place.1], b_flat[place.2]) * (operand_lane(
                environment,
                a,
                place.1,
            ) * operand_lane(environment, b, place.2))
        } else {
            0
        },
        None => 0,
    }
}

/// What the first `count` terms add to lane `y` of the result.
pub open spec fn terms_sum(
    terms: Seq<ProductTerm>,
    result: Seq<BasisElement>,
    environment: Environment,
    a: ParameterView,
    b: ParameterView,
    y: int,
    count: int,
) -> int
    decreases count,
{
    if count <= 0 {
        0
    } else {
        terms_sum(terms, result, environment, a, b, y, count - 1) + term_value(
            terms[count - 1],
            result,
            environment,
            a,
            b,
            y,
        )
    }
}

/// Whether a place is in row `y` and column `x`.
pub open spec fn at_place(place: Option<(int, int, int)>, y: int, x: int) -> bool {
    place matches Some(found) && found.0 == y && found.1 == x
}

/// Whether no two terms belong to the same row and column of the matrix.
pub open spec fn distinct_places(
    terms: Seq<ProductTerm>,
    result: Seq<BasisElement>,
    a: Seq<BasisElement>,
    b: Seq<BasisElement>,
) -> bool {
    forall|i: int, j: int|
        0 <= i < j < terms.len() ==> {
            let first = term_place(#[trigger] terms[i], result, a, b);
            let second = term_place(#[trigger] terms[j], result, a, b);
            !(first matches Some(place) && at_place(second, place.0, place.1))
        }
}

/// The row of the matrix for lane `y`, from the first `count` terms.
pub open spec fn row_of(
    terms: Seq<ProductTerm>,
    result: Seq<BasisElement>,
    a: Seq<BasisElement>,
    b: Seq<BasisElement>,
    y: int,
    count: int,
) -> Seq<Entry> {
    Seq::new(a.len(), |x: int| matrix_entry(terms.take(count), result, a, b, y, x))
}

/// Replacing one entry of a row replaces what it adds to the sum.
proof fn lemma_row_sum_update(
    row: Seq<Entry>,
    position: int,
    entry: Entry,
    environment: Environment,
    a: ParameterView,
    b: ParameterView,
    columns: int,
)
    requires
        0 <= columns <= row.len(),
        0 <= position < row.len(),
    ensures
        row_sum(row.update(position, entry), environment, a, b, columns) == row_sum(
            row,
            environment,
            a,
            b,
            columns,
        ) + if position < columns {
            entry_value(entry, position, environment, a, b) - entry_value(
                row[position],
                position,
                environment,
                a,
                b,
            )
        } else {
            0
        },
    decreases columns,
{
    if columns > 0 {
        lemma_row_sum_update(row, position, entry, environment, a, b, columns - 1);
    }
}

/// Where no term belongs to a row and column, the entry there is zero.
proof fn lemma_no_term_no_entry(
    terms: Seq<ProductTerm>,
    result: Seq<BasisElement>,
    a: Seq<BasisElement>,
    b: Seq<BasisElement>,
    y: int,
    x: int,
)
    requires
        forall|i: int|
            0 <= i < terms.len() ==> !at_place(term_place(#[trigger] terms[i], result, a, b), y, x),
    ensures
        matrix_entry(terms, result, a, b, y, x) == (0isize, 0usize),
    decreases terms.len(),
{
    if terms.len() > 0 {
        assert(terms.last() == terms[terms.len() - 1]);
        assert forall|i: int| 0 <= i < terms.drop_last().len() implies !at_place(
            term_place(#[trigger] terms.drop_last()[i], result, a, b),
            y,
            x,
        ) by {
            assert(terms.drop_last()[i] == terms[i]);
        }
        lemma_no_term_no_entry(terms.drop_last(), result, a, b, y, x);
    }
}

/// Where no two terms belong to the same place of the matrix, the sum of a row of the
/// matrix is the sum of what the terms add to its lane.
pub proof fn lemma_row_is_sum_of_terms(
    terms: Seq<ProductTerm>,
    result: Seq<BasisElement>,
    environment: Environment,
    a: ParameterView,
    b: ParameterView,
    y: int,
    count: int,
)
    requires
        0 <= count <= terms.len(),
        class_of(b.data_type).spec_flat_basis().len() <= usize::MAX,
        distinct_places(
            terms,
            result,
            class_of(a.data_type).spec_flat_basis(),
            class_of(b.data_type).spec_flat_basis(),
        ),
    ensures
        row_sum(
            row_of(
                terms,
                result,
                class_of(a.data_type).spec_flat_basis(),
                class_of(b.data_type).spec_flat_basis(),
                y,
                count,
            ),
            environment,
            a,
            b,
            class_of(a.data_type).spec_flat_basis().len() as int,
        ) == terms_sum(terms, result, environment, a, b, y, count),
    decreases count,
{
    let a_flat = class_of(a.data_type).spec_flat_basis();
    let b_flat = class_of(b.data_type).spec_flat_basis();
    let columns = a_flat.len() as int;
    let row = row_of(terms, result, a_flat, b_flat, y, count);
    if count == 0 {
        assert(terms.take(0) =~= Seq::empty());
        lemma_zero_row(row, environment, a, b, columns);
    } else {
        let term = terms[count - 1];
        let before = row_of(terms, result, a_flat, b_flat, y, count - 1);
        lemma_row_is_sum_of_terms(terms, result, environment, a, b, y, count - 1);
        assert(terms.take(count).drop_last() =~= terms.take(count - 1));
        assert(terms.take(count).last() == term);
        crate::class::lemma_first_position(a_flat, term.factor_a.index);
        crate::class::lemma_first_position(b_flat, term.factor_b.index);
        match term_place(term, result, a_flat, b_flat) {
            Some(place) => {
                if place.0 == y {
                    let entry = (
                        term_coefficient(term, result[y], a_flat[place.1], b_flat[place.2]),
                        place.2 as usize,
                    );
                    assert(row =~= before.update(place.1, entry));
                    lemma_row_sum_update(before, place.1, entry, environment, a, b, columns);
                    assert forall|i: int| 0 <= i < terms.take(count - 1).len() implies !at_place(
                        term_place(#[trigger] terms.take(count - 1)[i], result, a_flat, b_flat),
                        y,
                        place.1,
                    ) by {
                        assert(terms.take(count - 1)[i] == terms[i]);
                        assert(at_place(
                            term_place(terms[count - 1], result, a_flat, b_flat),
                            y,
                            place.1,
                        ));
                    }
                    lemma_no_term_no_entry(
                        terms.take(count - 1),
                        result,
                        a_flat,
                        b_flat,
                        y,
                        place.1,
                    );
                    assert(before[place.1] == (0isize, 0usize));
                    let v = operand_lane(environment, a, place.1) * operand_lane(
                        environment,
                        b,
                        0,
                    );
                    assert(0 * v == 0) by (nonlinear_arith);
                } else {
                    assert(row =~= before);
                }
            },
            None => {
                assert(row =~= before);
            },
        }
    }
}

/// A row of zeros sums to zero.
proof fn lemma_zero_row(
    row: Seq<Entry>,
    environment: Environment,
    a: ParameterView,
    b: ParameterView,
    columns: int,
)
    requires
        0 <= columns <= row.len(),
        forall|x: int| 0 <= x < row.len() ==> (#[trigger] row[x]).0 == 0,
    ensures
        row_sum(row, environment, a, b, columns) == 0,
    decreases columns,
{
    if columns > 0 {
        lemma_zero_row(row, environment, a, b, columns - 1);
        let v = operand_lane(environment, a, columns - 1) * operand_lane(
            environment,
            b,
            row[columns - 1].1 as int,
        );
        assert(0 * v == 0) by (nonlinear_arith);
    }
}

/// The product of two multivectors by a table whose terms belong to different places:
/// every lane of the result is the sum of what the terms of the table add to it, each
/// its coefficient times the lanes of its two factors.
pub proof fn lemma_product_is_sum_of_terms(
    terms: Seq<ProductTerm>,
    a: ParameterView,
    b: ParameterView,
    result: MultiVectorClass,
    environment: Environment,
    g: int,
    k: int,
)
    requires
        operands_ok(environment, a, b),
        class_of(b.data_type).spec_flat_basis().len() <= usize::MAX,
        result.well_formed(),
        0 <= g < result.spec_groups().len(),
        0 <= k < result.spec_groups()[g].len(),
        distinct_places(
            terms,
            result.spec_flat_basis(),
            class_of(a.data_type).spec_flat_basis(),
            class_of(b.data_type).spec_flat_basis(),
        ),
    ensures
        lane_values(product_groups(terms, a, b, result)[g], environment)[k] == terms_sum(
            terms,
            result.spec_flat_basis(),
            environment,
            a,
            b,
            group_offset(result.spec_groups(), g) + k,
            terms.len() as int,
        ),
{
    let a_flat = class_of(a.data_type).spec_flat_basis();
    let b_flat = class_of(b.data_type).spec_flat_basis();
    let flat = result.spec_flat_basis();
    let y = group_offset(result.spec_groups(), g) + k;
    let matrix = spec_matrix(terms, flat, a_flat, b_flat);
    lemma_product_value(terms, a, b, result, environment, g, k);
    lemma_row_is_sum_of_terms(terms, flat, environment, a, b, y, terms.len() as int);
    assert(terms.take(terms.len() as int) =~= terms);
    let row = row_of(terms, flat, a_flat, b_flat, y, terms.len() as int);
    assert(matrix[y] =~= row);
}

/// The result of an involution or a conversion, lane by lane: every lane of a group is
/// its factor times the lane of the operand that it takes.
pub proof fn lemma_involution_value(
    terms: Seq<(BasisElement, BasisElement)>,
    operand: ParameterView,
    group: Seq<BasisElement>,
    environment: Environment,
    k: int,
)
    requires
        class_of(operand.data_type).well_formed(),
        laid_out(environment(operand.name), class_of(operand.data_type)),
        group.len() <= usize::MAX,
        0 <= k < group.len(),
        forall|i: int|
            0 <= i < group.len() ==> involution_lane(
                terms,
                class_of(operand.data_type),
                #[trigger] group[i],
            ) is Some,
    ensures
        lane_values(
            involution_group(terms, class_of(operand.data_type), operand.name, group),
            environment,
        )[k] == lane_factor(involution_lane(terms, class_of(operand.data_type), group[k]))
            * pair_lane(
            environment,
            operand.name,
            lane_pair(involution_lane(terms, class_of(operand.data_type), group[k])),
        ),
{
    let class = class_of(operand.data_type);
    let size = group.len() as usize;
    let pairs = group.map_values(
        |element: BasisElement| lane_pair(involution_lane(terms, class, element)),
    );
    let factors = group.map_values(
        |element: BasisElement| lane_factor(involution_lane(terms, class, element)),
    );
    let declared = class.spec_groups()[pairs[0].0 as int].len() as usize;
    let gather = spec_gather(size, spec_variable(operand.name, declared), pairs);
    let product = spec_multiply(size, gather, spec_constant(size, factors));
    lemma_class_bounds(class);
    assert forall|i: int| 0 <= i < size implies (#[trigger] pairs[i]).0
        < class.spec_groups().len() by {
        let lane = involution_lane(terms, class, group[i]);
        let t = first_position(crate::compile::images_of(terms), group[i].index)->0;
        let p = first_position(class.spec_flat_basis(), terms[t].0.index)->0;
        crate::class::lemma_first_position(class.spec_flat_basis(), terms[t].0.index);
        lemma_place_valid(class.spec_groups(), p);
    }
    assert(gather_fits(environment, operand.name, declared, size, pairs));
    lemma_gather(environment, operand.name, declared, size, pairs);
    lemma_scaled(environment, size, gather, factors);
    lemma_simplify_keeps_value(product, environment);
    let expression = involution_group(terms, class, operand.name, group);
    assert(pairs =~= group.map_values(
        |element: BasisElement| lane_pair(involution_lane(terms, class, element)),
    ));
    assert(expression == spec_simplify(product));
    let f = factors[k] as int;
    let v = pair_lane(environment, operand.name, pairs[k]);
    assert(lane_values(product, environment)[k] == lane_values(gather, environment)[k] * factors[k]);
    assert(lane_values(gather, environment)[k] == v);
    assert(v * f == f * v) by (nonlinear_arith);
}

/// The group of the operand that the last lane with a source takes it from: a lane
/// takes it from there, or no lane has a source.
proof fn lemma_last_source_group(operand: MultiVectorClass, group: Seq<BasisElement>)
    ensures
        match last_source_group(operand, group) {
            Some(found) => exists|i: int|
                0 <= i < group.len() && first_position(
                    operand.spec_flat_basis(),
                    (#[trigger] group[i]).index,
                ) is Some && element_wise_lane(operand, group[i]).1.0 == found,
            None => forall|i: int|
                0 <= i < group.len() ==> first_position(
                    operand.spec_flat_basis(),
                    (#[trigger] group[i]).index,
                ) is None,
        },
    decreases group.len(),
{
    if group.len() > 0 {
        let front = group.drop_last();
        lemma_last_source_group(operand, front);
        match first_position(operand.spec_flat_basis(), group.last().index) {
            Some(p) => {
                assert(group[group.len() - 1] == group.last());
            },
            None => {
                match last_source_group(operand, front) {
                    Some(found) => {
                        let i = choose|i: int|
                            0 <= i < front.len() && first_position(
                                operand.spec_flat_basis(),
                                (#[trigger] front[i]).index,
                            ) is Some && element_wise_lane(operand, front[i]).1.0 == found;
                        assert(group[i] == front[i]);
                    },
                    None => {
                        assert forall|i: int| 0 <= i < group.len() implies first_position(
                            operand.spec_flat_basis(),
                            (#[trigger] group[i]).index,
                        ) is None by {
                            if i < front.len() {
                                assert(front[i] == group[i]);
                            }
                        }
                    },
                }
            },
        }
    }
}

/// One operand of an element-wise operation, laid out for a group of the result, is
/// simplified safely and computes, in every lane, the factor of the lane times the lane
/// of the operand that it takes.
proof fn lemma_element_wise_operand(
    operand: ParameterView,
    group: Seq<BasisElement>,
    environment: Environment,
)
    requires
        class_of(operand.data_type).well_formed(),
        laid_out(environment(operand.name), class_of(operand.data_type)),
        1 <= group.len() <= usize::MAX,
    ensures
        ({
            let class = class_of(operand.data_type);
            let expression = element_wise_operand(class, operand.name, group);
            &&& simplifies_safely(expression, environment)
            &&& operand_fits(expression, group.len() as usize, environment)
            &&& forall|k: int|
                0 <= k < group.len() ==> #[trigger] lane_values(expression, environment)[k]
                    == element_wise_lane(class, group[k]).0 * pair_lane(
                    environment,
                    operand.name,
                    element_wise_lane(class, group[k]).1,
                )
        }),
{
    let class = class_of(operand.data_type);
    let size = group.len() as usize;
    let pairs = group.map_values(|element: BasisElement| element_wise_lane(class, element).1);
    let factors = group.map_values(|element: BasisElement| element_wise_lane(class, element).0);
    let declared = match last_source_group(class, group) {
        Some(g) => class.spec_groups()[g as int].len() as usize,
        None => size,
    };
    let gather = spec_gather(size, spec_variable(operand.name, declared), pairs);
    lemma_class_bounds(class);
    lemma_last_source_group(class, group);
    assert(gather_fits(environment, operand.name, declared, size, pairs)) by {
        if declared == size && all_in_group(pairs, pairs[0].0) && !all_pairs(pairs, pairs[0]) {
            match last_source_group(class, group) {
                Some(found) => {
                    let i = choose|i: int|
                        0 <= i < group.len() && first_position(
                            class.spec_flat_basis(),
                            (#[trigger] group[i]).index,
                        ) is Some && element_wise_lane(class, group[i]).1.0 == found;
                    assert(pairs[i].0 == found);
                    let p = first_position(class.spec_flat_basis(), group[i].index)->0;
                    crate::class::lemma_first_position(class.spec_flat_basis(), group[i].index);
                    lemma_place_valid(class.spec_groups(), p);
                },
                None => {
                    assert forall|i: int| 0 <= i < pairs.len() implies #[trigger] pairs[i] == pairs[0] by {
                        assert(first_position(class.spec_flat_basis(), group[i].index) is None);
                        assert(first_position(class.spec_flat_basis(), group[0].index) is None);
                    }
                },
            }
        }
    }
    lemma_gather(environment, operand.name, declared, size, pairs);
    lemma_scaled(environment, size, gather, factors);
    let product = spec_multiply(size, gather, spec_constant(size, factors));
    let expression = element_wise_operand(class, operand.name, group);
    assert(expression == product);
    assert forall|k: int| 0 <= k < group.len() implies #[trigger] lane_values(
        expression,
        environment,
    )[k] == element_wise_lane(class, group[k]).0 * pair_lane(
        environment,
        operand.name,
        element_wise_lane(class, group[k]).1,
    ) by {
        let f = factors[k] as int;
        let v = pair_lane(environment, operand.name, pairs[k]);
        assert(lane_values(product, environment)[k] == lane_values(gather, environment)[k]
            * factors[k]);
        assert(lane_values(gather, environment)[k] == v);
        assert(v * f == f * v) by (nonlinear_arith);
    }
}

/// The sum or the difference of two multivectors, lane by lane: every lane of a group
/// of the result is the lane of the left operand with the same element, with its sign,
/// plus or minus that of the right operand; an operand that lacks the element adds
/// nothing.
pub proof fn lemma_sum_value(
    name: Seq<char>,
    a: ParameterView,
    b: ParameterView,
    group: Seq<BasisElement>,
    environment: Environment,
    k: int,
)
    requires
        name == "Add"@ || name == "Sub"@,
        operands_ok(environment, a, b),
        1 <= group.len() <= usize::MAX,
        0 <= k < group.len(),
    ensures
        ({
            let left = element_wise_lane(class_of(a.data_type), group[k]);
            let right = element_wise_lane(class_of(b.data_type), group[k]);
            let x = left.0 * pair_lane(environment, a.name, left.1);
            let y = right.0 * pair_lane(environment, b.name, right.1);
            lane_values(element_wise_group(name, a, b, group), environment)[k] == if name
                == "Add"@ {
                x + y
            } else {
                x - y
            }
        }),
{
    let size = group.len() as usize;
    let left = element_wise_operand(class_of(a.data_type), a.name, group);
    let right = element_wise_operand(class_of(b.data_type), b.name, group);
    lemma_element_wise_operand(a, group, environment);
    lemma_element_wise_operand(b, group, environment);
    reveal_with_fuel(lane_values, 2);
    if name == "Add"@ {
        let total = spec_add(size, left, right);
        assert(simplifies_safely(total, environment));
        lemma_simplify_keeps_value(total, environment);
    } else {
        let total = spec_subtract(size, left, right);
        assert(simplifies_safely(total, environment));
        lemma_simplify_keeps_value(total, environment);
    }
}

/// Entries that differ in product or left factor belong to different places of the
/// matrix, whatever the classes.
pub proof fn lemma_distinct_keys_places(
    terms: Seq<ProductTerm>,
    result: Seq<BasisElement>,
    a: Seq<BasisElement>,
    b: Seq<BasisElement>,
)
    requires
        distinct_keys(terms),
    ensures
        distinct_places(terms, result, a, b),
{
    assert forall|i: int, j: int| 0 <= i < j < terms.len() implies {
        let first = term_place(#[trigger] terms[i], result, a, b);
        let second = term_place(#[trigger] terms[j], result, a, b);
        !(first matches Some(place) && at_place(second, place.0, place.1))
    } by {
        crate::class::lemma_first_position(result, terms[i].product.index);
        crate::class::lemma_first_position(result, terms[j].product.index);
        crate::class::lemma_first_position(a, terms[i].factor_a.index);
        crate::class::lemma_first_position(a, terms[j].factor_a.index);
        assert(!same_key(terms[i], terms[j]));
    }
}

/// Each of the seven products of an algebra, between any two classes and into any
/// class: every lane of the result is the sum of what the entries of the product add to
/// it, each its coefficient times the lanes of its two factors.
pub proof fn lemma_algebra_product_value(
    squares: Seq<isize>,
    product: int,
    a: ParameterView,
    b: ParameterView,
    result: MultiVectorClass,
    environment: Environment,
    g: int,
    k: int,
)
    requires
        crate::algebra::valid_signature(squares),
        0 <= product < 7,
        operands_ok(environment, a, b),
        class_of(b.data_type).spec_flat_basis().len() <= usize::MAX,
        result.well_formed(),
        0 <= g < result.spec_groups().len(),
        0 <= k < result.spec_groups()[g].len(),
    ensures
        lane_values(
            product_groups(spec_products(squares)[product].1, a, b, result)[g],
            environment,
        )[k] == terms_sum(
            spec_products(squares)[product].1,
            result.spec_flat_basis(),
            environment,
            a,
            b,
            group_offset(result.spec_groups(), g) + k,
            spec_products(squares)[product].1.len() as int,
        ),
{
    let terms = spec_products(squares)[product].1;
    lemma_products_distinct_keys(squares, product);
    lemma_distinct_keys_places(
        terms,
        result.spec_flat_basis(),
        class_of(a.data_type).spec_flat_basis(),
        class_of(b.data_type).spec_flat_basis(),
    );
    lemma_product_is_sum_of_terms(terms, a, b, result, environment, g, k);
}

} // verus!
