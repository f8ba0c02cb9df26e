//! What the expressions of the primitive operations compute, lane by lane, and the
//! proof that the simplifier keeps it.

use vstd::prelude::*;
use crate::ast::{ContentView, ExpressionView};
use crate::simplify::{
    add_rewrite, all_in_group, all_pairs, all_values, gather_rewrite, identity_lanes,
    multiply_rewrite, negated_product, rewrite_measure, settles, spec_simplify,
    subtract_rewrite, sum_rewrite,
};

verus! {

/// The values of the variables: for each name the lanes of each of its groups.
pub type Environment = spec_fn(Seq<char>) -> Seq<Seq<int>>;

/// The groups of a multivector: those of a variable.
pub open spec fn group_values(expression: ExpressionView, environment: Environment) -> Seq<
    Seq<int>,
> {
    match expression.content {
        ContentView::Variable(name) => environment(name),
        _ => Seq::empty(),
    }
}

/// The lanes that an expression computes. An absent expression counts as zero in
/// every lane; a gather or a constant of one entry fills all lanes with it; a variable
/// that stands where a vector is asked for is a vector, the lanes of its first group.
/// Nodes that only derived operations use have no lanes here.
pub open spec fn lane_values(expression: ExpressionView, environment: Environment) -> Seq<int>
    decreases expression,
{
    let size = expression.size as nat;
    match expression.content {
        ContentView::Empty => Seq::new(size, |k: int| 0int),
        ContentView::Variable(name) => Seq::new(size, |k: int| environment(name)[0][k]),
        ContentView::Gather(inner, pairs) => {
            let groups = group_values(*inner, environment);
            Seq::new(
                size,
                |k: int|
                    if pairs.len() == 1 {
                        groups[pairs[0].0 as int][pairs[0].1 as int]
                    } else {
                        groups[pairs[k].0 as int][pairs[k].1 as int]
                    },
            )
        },
        ContentView::Access(inner, group) => group_values(*inner, environment)[group as int],
        ContentView::Swizzle(inner, lanes) => {
            let values = lane_values(*inner, environment);
            Seq::new(size, |k: int| values[lanes[k] as int])
        },
        ContentView::Constant(_, values) => Seq::new(
            size,
            |k: int|
                if values.len() == 1 {
                    values[0] as int
                } else {
                    values[k] as int
                },
        ),
        ContentView::Add(a, b) => {
            let left = lane_values(*a, environment);
            let right = lane_values(*b, environment);
            Seq::new(size, |k: int| left[k] + right[k])
        },
        ContentView::Subtract(a, b) => {
            let left = lane_values(*a, environment);
            let right = lane_values(*b, environment);
            Seq::new(size, |k: int| left[k] - right[k])
        },
        ContentView::Multiply(a, b) => {
            let left = lane_values(*a, environment);
            let right = lane_values(*b, environment);
            Seq::new(size, |k: int| left[k] * right[k])
        },
        _ => Seq::empty(),
    }
}

/// Whether all lanes are zero.
pub open spec fn all_zero_lanes(values: Seq<int>) -> bool {
    forall|k: int| 0 <= k < values.len() ==> values[k] == 0
}

/// Whether an operand is as wide as the operation and computes that many lanes.
pub open spec fn operand_fits(
    operand: ExpressionView,
    size: usize,
    environment: Environment,
) -> bool {
    operand.size == size && lane_values(operand, environment).len() == size
}

/// Whether a product keeps its value when an absent factor leaves the other: the other
/// is then zero as well.
pub open spec fn absent_factors_are_harmless(
    a: ExpressionView,
    b: ExpressionView,
    environment: Environment,
) -> bool {
    &&& spec_simplify(a).content is Empty ==> all_zero_lanes(lane_values(b, environment))
    &&& spec_simplify(b).content is Empty ==> all_zero_lanes(lane_values(a, environment))
}

/// Whether the simplifier keeps the value of an expression: along its way, gathers
/// take from variables and have one pair for each lane or one for all, a gather of a
/// whole group takes a group that is as wide as the gather, constants have one value
/// for each lane or one for all, the operands of sums, differences and products are as
/// wide as these, and no product loses a factor that matters.
pub open spec fn simplifies_safely(expression: ExpressionView, environment: Environment) -> bool
    decreases rewrite_measure(expression),
{
    let size = expression.size;
    match expression.content {
        ContentView::Gather(inner, pairs) => {
            &&& inner.content is Variable
            &&& pairs.len() == size || pairs.len() == 1
            &&& (inner.size == size && all_in_group(pairs, pairs[0].0) && !all_pairs(
                pairs,
                pairs[0],
            ) ==> group_values(*inner, environment)[pairs[0].0 as int].len() == size)
        },
        ContentView::Constant(_, values) => values.len() == size || values.len() == 1,
        ContentView::Add(a, b) => {
            &&& operand_fits(*a, size, environment)
            &&& operand_fits(*b, size, environment)
            &&& simplifies_safely(*a, environment)
            &&& simplifies_safely(*b, environment)
        },
        ContentView::Subtract(a, b) => {
            &&& operand_fits(*a, size, environment)
            &&& operand_fits(*b, size, environment)
            &&& simplifies_safely(*a, environment)
            &&& simplifies_safely(*b, environment)
        },
        ContentView::Multiply(a, b) => {
            &&& operand_fits(*a, size, environment)
            &&& operand_fits(*b, size, environment)
            &&& simplifies_safely(*a, environment)
            &&& simplifies_safely(*b, environment)
            &&& absent_factors_are_harmless(*a, *b, environment)
        },
        _ => true,
    }
}

proof fn lemma_gather_keeps_value(
    size: usize,
    inner: ExpressionView,
    pairs: Seq<(usize, usize)>,
    environment: Environment,
)
    requires
        pairs.len() > 0,
        inner.content is Variable,
        pairs.len() == size || pairs.len() == 1,
        inner.size == size && all_in_group(pairs, pairs[0].0) && !all_pairs(pairs, pairs[0])
            ==> group_values(inner, environment)[pairs[0].0 as int].len() == size,
    ensures
        lane_values(gather_rewrite(size, inner, pairs), environment) == lane_values(
            ExpressionView { size, content: ContentView::Gather(Box::new(inner), pairs) },
            environment,
        ),
        gather_rewrite(size, inner, pairs).size == size,
{
    let given = ExpressionView { size, content: ContentView::Gather(Box::new(inner), pairs) };
    let rewritten = gather_rewrite(size, inner, pairs);
    let groups = group_values(inner, environment);
    reveal_with_fuel(lane_values, 3);
    if all_pairs(pairs, pairs[0]) {
        assert(lane_values(rewritten, environment) =~= lane_values(given, environment));
    } else if inner.size == size && all_in_group(pairs, pairs[0].0) {
        let access = ExpressionView {
            size,
            content: ContentView::Access(Box::new(inner), pairs[0].0),
        };
        assert(lane_values(access, environment) == groups[pairs[0].0 as int]);
        if identity_lanes(pairs) {
            assert(lane_values(rewritten, environment) =~= lane_values(given, environment));
        } else {
            assert(lane_values(rewritten, environment) =~= lane_values(given, environment));
        }
    }
}

proof fn lemma_constant_keeps_value(
    expression: ExpressionView,
    environment: Environment,
)
    requires
        expression.content is Constant,
        simplifies_safely(expression, environment),
    ensures
        lane_values(spec_simplify(expression), environment) == lane_values(
            expression,
            environment,
        ),
{
    assert(lane_values(spec_simplify(expression), environment) =~= lane_values(
        expression,
        environment,
    ));
}

/// Whether a constant has a value for each lane or one for all.
pub open spec fn constant_fits(expression: ExpressionView) -> bool {
    expression.content matches ContentView::Constant(_, values) ==> values.len() == 1
        || values.len() == expression.size
}

/// Whether an expression is one that the simplifier rewrites.
pub open spec fn is_rewritten(expression: ExpressionView) -> bool {
    ||| expression.content is Gather
    ||| expression.content is Constant
    ||| expression.content is Add
    ||| expression.content is Subtract
    ||| expression.content is Multiply
}

/// Whether the factors of every product at the top of an expression, and of the
/// products among these factors, are present, as wide as the product and compute that
/// many lanes, and whether those of them that are constants have a value for each
/// lane or one for all.
pub open spec fn products_fit(expression: ExpressionView, environment: Environment) -> bool
    decreases expression,
{
    match expression.content {
        ContentView::Multiply(p, q) => {
            &&& !(p.content is Empty)
            &&& !(q.content is Empty)
            &&& operand_fits(*p, expression.size, environment)
            &&& operand_fits(*q, expression.size, environment)
            &&& constant_fits(*p)
            &&& constant_fits(*q)
            &&& products_fit(*p, environment)
            &&& products_fit(*q, environment)
        },
        _ => true,
    }
}

/// The simplifier keeps the value of every expression that it simplifies safely, and
/// its width.
pub proof fn lemma_simplify_keeps_value(expression: ExpressionView, environment: Environment)
    requires
        simplifies_safely(expression, environment),
    ensures
        lane_values(spec_simplify(expression), environment) == lane_values(
            expression,
            environment,
        ),
        is_rewritten(expression) ==> spec_simplify(expression).size == expression.size
            && constant_fits(spec_simplify(expression)),
        !is_rewritten(expression) ==> spec_simplify(expression) == expression,
        products_fit(spec_simplify(expression), environment),
    decreases rewrite_measure(expression),
{
    let size = expression.size;
    reveal_with_fuel(rewrite_measure, 3);
    match expression.content {
        ContentView::Gather(inner, pairs) => {
            if pairs.len() == 0 {
                assert(lane_values(spec_simplify(expression), environment) =~= lane_values(
                    expression,
                    environment,
                ));
            } else {
                assert(spec_simplify(*inner) == *inner);
                lemma_gather_keeps_value(size, *inner, pairs, environment);
            }
        },
        ContentView::Constant(_, _) => {
            lemma_constant_keeps_value(expression, environment);
        },
        ContentView::Add(a, b) => {
            lemma_simplify_keeps_value(*a, environment);
            lemma_simplify_keeps_value(*b, environment);
            lemma_operand_size(*a, size, environment);
            lemma_operand_size(*b, size, environment);
            lemma_sum_keeps_value(
                size,
                spec_simplify(*a),
                spec_simplify(*b),
                lane_values(*a, environment),
                lane_values(*b, environment),
                environment,
            );
            assert(lane_values(expression, environment) =~= Seq::new(
                size as nat,
                |k: int| lane_values(*a, environment)[k] + lane_values(*b, environment)[k],
            ));
        },
        ContentView::Subtract(a, b) => {
            lemma_simplify_keeps_value(*a, environment);
            lemma_simplify_keeps_value(*b, environment);
            lemma_operand_size(*a, size, environment);
            lemma_operand_size(*b, size, environment);
            lemma_difference_keeps_value(
                size,
                spec_simplify(*a),
                spec_simplify(*b),
                lane_values(*a, environment),
                lane_values(*b, environment),
                environment,
            );
            assert(lane_values(expression, environment) =~= Seq::new(
                size as nat,
                |k: int| lane_values(*a, environment)[k] - lane_values(*b, environment)[k],
            ));
        },
        ContentView::Multiply(a, b) => {
            lemma_simplify_keeps_value(*a, environment);
            lemma_simplify_keeps_value(*b, environment);
            lemma_operand_size(*a, size, environment);
            lemma_operand_size(*b, size, environment);
            lemma_product_keeps_value(
                size,
                spec_simplify(*a),
                spec_simplify(*b),
                lane_values(*a, environment),
                lane_values(*b, environment),
                environment,
            );
            assert(lane_values(expression, environment) =~= Seq::new(
                size as nat,
                |k: int| lane_values(*a, environment)[k] * lane_values(*b, environment)[k],
            ));
        },
        _ => {},
    }
}

/// A simplified operand is as wide as before, and where it is a constant, the
/// constant has a value for each lane that the operand computes or one for all.
proof fn lemma_operand_size(operand: ExpressionView, size: usize, environment: Environment)
    requires
        operand_fits(operand, size, environment),
        simplifies_safely(operand, environment),
        is_rewritten(operand) ==> spec_simplify(operand).size == operand.size && constant_fits(
            spec_simplify(operand),
        ),
        !is_rewritten(operand) ==> spec_simplify(operand) == operand,
    ensures
        spec_simplify(operand).size == size,
        constant_fits(spec_simplify(operand)),
{
}

/// Whether an operand is one that the simplifier left behind for an operation of the
/// given width: it is as wide, computes the lanes `values`, and its products fit.
pub open spec fn simplified_operand(
    operand: ExpressionView,
    size: usize,
    values: Seq<int>,
    environment: Environment,
) -> bool {
    &&& operand.size == size
    &&& values.len() == size
    &&& lane_values(operand, environment) == values
    &&& constant_fits(operand)
    &&& products_fit(operand, environment)
}

/// The difference of two simplified operands computes the difference of their lanes.
proof fn lemma_difference_keeps_value(
    size: usize,
    left: ExpressionView,
    right: ExpressionView,
    x: Seq<int>,
    y: Seq<int>,
    environment: Environment,
)
    requires
        simplified_operand(left, size, x, environment),
        simplified_operand(right, size, y, environment),
    ensures
        lane_values(subtract_rewrite(size, left, right), environment) == Seq::new(
            size as nat,
            |k: int| x[k] - y[k],
        ),
        subtract_rewrite(size, left, right).size == size,
        constant_fits(subtract_rewrite(size, left, right)),
        products_fit(subtract_rewrite(size, left, right), environment),
{
    reveal_with_fuel(lane_values, 3);
    assert(lane_values(subtract_rewrite(size, left, right), environment) =~= Seq::new(
        size as nat,
        |k: int| x[k] - y[k],
    ));
}

/// The product of two simplified operands computes the product of their lanes, unless
/// it loses a factor that matters.
proof fn lemma_product_keeps_value(
    size: usize,
    left: ExpressionView,
    right: ExpressionView,
    x: Seq<int>,
    y: Seq<int>,
    environment: Environment,
)
    requires
        simplified_operand(left, size, x, environment),
        simplified_operand(right, size, y, environment),
        left.content is Empty ==> all_zero_lanes(y),
        right.content is Empty ==> all_zero_lanes(x),
    ensures
        lane_values(multiply_rewrite(size, left, right), environment) == Seq::new(
            size as nat,
            |k: int| x[k] * y[k],
        ),
        multiply_rewrite(size, left, right).size == size,
        constant_fits(multiply_rewrite(size, left, right)),
        products_fit(multiply_rewrite(size, left, right), environment),
{
    let rewritten = multiply_rewrite(size, left, right);
    reveal_with_fuel(lane_values, 3);
    let (first, second) = if left.content is Constant {
        (right, left)
    } else {
        (left, right)
    };
    let (p, q) = if left.content is Constant {
        (y, x)
    } else {
        (x, y)
    };
    assert(lane_values(first, environment) == p && lane_values(second, environment) == q);
    assert forall|k: int| 0 <= k < size implies lane_values(rewritten, environment)[k] == x[k]
        * y[k] by {
        assert(x[k] * y[k] == y[k] * x[k]) by (nonlinear_arith);
        assert(p[k] * q[k] == x[k] * y[k]);
        if first.content is Empty {
            assert(p[k] == 0);
            assert(q[k] == 0);
            assert(0 * q[k] == 0) by (nonlinear_arith);
        } else {
            match second.content {
                ContentView::Empty => {
                    assert(q[k] == 0);
                    assert(p[k] == 0);
                    assert(p[k] * 0 == 0) by (nonlinear_arith);
                },
                ContentView::Constant(_, values) => {
                    if all_values(values, 1) {
                        assert(q[k] == 1);
                        assert(p[k] * 1 == p[k]) by (nonlinear_arith);
                    } else if all_values(values, 0) {
                        assert(q[k] == 0);
                        assert(p[k] * 0 == 0) by (nonlinear_arith);
                    } else {
                    }
                },
                _ => {},
            }
        }
    }
    assert(lane_values(rewritten, environment).len() == size);
    assert(lane_values(rewritten, environment) =~= Seq::new(size as nat, |k: int| x[k] * y[k]));
}

/// The sum of two simplified operands computes the sum of their lanes, also where it
/// becomes a difference.
proof fn lemma_sum_keeps_value(
    size: usize,
    left: ExpressionView,
    right: ExpressionView,
    x: Seq<int>,
    y: Seq<int>,
    environment: Environment,
)
    requires
        simplified_operand(left, size, x, environment),
        simplified_operand(right, size, y, environment),
    ensures
        lane_values(sum_rewrite(size, left, right), environment) == Seq::new(
            size as nat,
            |k: int| x[k] + y[k],
        ),
        sum_rewrite(size, left, right).size == size,
        constant_fits(sum_rewrite(size, left, right)),
        products_fit(sum_rewrite(size, left, right), environment),
{
    reveal_with_fuel(lane_values, 4);
    reveal_with_fuel(products_fit, 3);
    match negated_product(right) {
        Some((c, e)) => {
            let d = *right.content->Multiply_1;
            let f = *d.content->Multiply_1;
            let cs = lane_values(c, environment);
            let es = lane_values(e, environment);
            let product = multiply_rewrite(size, c, e);
            lemma_product_keeps_value(size, c, e, cs, es, environment);
            let ps = Seq::new(size as nat, |k: int| cs[k] * es[k]);
            lemma_difference_keeps_value(size, left, product, x, ps, environment);
            assert forall|k: int| 0 <= k < size implies x[k] - ps[k] == x[k] + y[k] by {
                assert(lane_values(f, environment)[k] == -1);
                assert(y[k] == cs[k] * (es[k] * (-1)));
                assert(cs[k] * (es[k] * (-1)) == -(cs[k] * es[k])) by (nonlinear_arith);
            }
            assert(Seq::new(size as nat, |k: int| x[k] - ps[k]) =~= Seq::new(
                size as nat,
                |k: int| x[k] + y[k],
            ));
        },
        None => {
            assert(lane_values(add_rewrite(size, left, right), environment) =~= Seq::new(
                size as nat,
                |k: int| x[k] + y[k],
            ));
        },
    }
}

/// Whether an expression is a constant of zeros.
pub open spec fn zero_constant(expression: ExpressionView) -> bool {
    expression.content matches ContentView::Constant(_, values) && all_values(values, 0)
}

/// Whether an expression is a vector built from variables and constants as the
/// expression tree asks: a gather takes from a variable and has a pair for each lane or
/// one for all, a constant has a value for each lane or one for all, the two sides of
/// a sum, a difference or a product are such vectors and as wide as the whole, and no
/// factor of a product is a constant of zeros. No part of it is absent.
pub open spec fn well_sized(expression: ExpressionView) -> bool
    decreases expression,
{
    let size = expression.size;
    match expression.content {
        ContentView::Variable(_) => true,
        ContentView::Constant(_, values) => values.len() > 0 && (values.len() == size
            || values.len() == 1),
        ContentView::Gather(inner, pairs) => {
            &&& inner.content is Variable
            &&& pairs.len() > 0
            &&& pairs.len() == size || pairs.len() == 1
        },
        ContentView::Add(a, b) => {
            &&& a.size == size
            &&& b.size == size
            &&& well_sized(*a)
            &&& well_sized(*b)
        },
        ContentView::Subtract(a, b) => {
            &&& a.size == size
            &&& b.size == size
            &&& well_sized(*a)
            &&& well_sized(*b)
        },
        ContentView::Multiply(a, b) => {
            &&& a.size == size
            &&& b.size == size
            &&& well_sized(*a)
            &&& well_sized(*b)
            &&& !zero_constant(*a)
            &&& !zero_constant(*b)
        },
        _ => false,
    }
}

/// Whether the variables have the groups that the gathers take from: each such group
/// is as wide as the gather says the variable is.
pub open spec fn gathers_fit(expression: ExpressionView, environment: Environment) -> bool
    decreases expression,
{
    match expression.content {
        ContentView::Gather(inner, pairs) => forall|i: int|
            0 <= i < pairs.len() ==> (#[trigger] group_values(*inner, environment)[pairs[i].0 as int]).len()
                == inner.size,
        ContentView::Add(a, b) => gathers_fit(*a, environment) && gathers_fit(*b, environment),
        ContentView::Subtract(a, b) => gathers_fit(*a, environment) && gathers_fit(
            *b,
            environment,
        ),
        ContentView::Multiply(a, b) => gathers_fit(*a, environment) && gathers_fit(
            *b,
            environment,
        ),
        _ => true,
    }
}

/// Whether no factor of a product at the top of an expression, nor of the products
/// among these factors, is absent or a constant of zeros.
pub open spec fn factors_count(expression: ExpressionView) -> bool
    decreases expression,
{
    match expression.content {
        ContentView::Multiply(p, q) => {
            &&& !(p.content is Empty)
            &&& !(q.content is Empty)
            &&& !zero_constant(*p)
            &&& !zero_constant(*q)
            &&& factors_count(*p)
            &&& factors_count(*q)
        },
        _ => true,
    }
}

/// Simplifying a well-sized expression leaves something: the result is not absent, it
/// is a constant of zeros only where the expression was one, and no product in it at
/// the top has a factor that is absent or a constant of zeros.
pub proof fn lemma_well_sized_stays_present(expression: ExpressionView)
    requires
        well_sized(expression),
    ensures
        !(spec_simplify(expression).content is Empty),
        zero_constant(spec_simplify(expression)) ==> zero_constant(expression),
        factors_count(spec_simplify(expression)),
    decreases expression,
{
    let size = expression.size;
    match expression.content {
        ContentView::Constant(_, values) => {
            if zero_constant(spec_simplify(expression)) && values.len() > 0 && all_values(
                values,
                values[0],
            ) {
                assert(seq![values[0]][0] == 0);
            }
        },
        ContentView::Add(a, b) => {
            lemma_well_sized_stays_present(*a);
            lemma_well_sized_stays_present(*b);
            reveal_with_fuel(factors_count, 3);
        },
        ContentView::Subtract(a, b) => {
            lemma_well_sized_stays_present(*a);
            lemma_well_sized_stays_present(*b);
        },
        ContentView::Multiply(a, b) => {
            lemma_well_sized_stays_present(*a);
            lemma_well_sized_stays_present(*b);
            reveal_with_fuel(factors_count, 2);
        },
        _ => {},
    }
}

/// A well-sized expression computes as many lanes as it is wide.
pub proof fn lemma_well_sized_lanes(expression: ExpressionView, environment: Environment)
    requires
        well_sized(expression),
    ensures
        lane_values(expression, environment).len() == expression.size,
{
}

/// The simplifier keeps the value and the width of every well-sized expression, in
/// every environment that has the groups that its gathers take from.
pub proof fn lemma_simplify_keeps_well_sized(expression: ExpressionView, environment: Environment)
    requires
        well_sized(expression),
        gathers_fit(expression, environment),
    ensures
        simplifies_safely(expression, environment),
        lane_values(spec_simplify(expression), environment) == lane_values(
            expression,
            environment,
        ),
        spec_simplify(expression).size == expression.size,
{
    lemma_well_sized_simplifies_safely(expression, environment);
    lemma_simplify_keeps_value(expression, environment);
}

/// The simplifier simplifies every well-sized expression safely.
pub proof fn lemma_well_sized_simplifies_safely(
    expression: ExpressionView,
    environment: Environment,
)
    requires
        well_sized(expression),
        gathers_fit(expression, environment),
    ensures
        simplifies_safely(expression, environment),
    decreases expression,
{
    reveal_with_fuel(rewrite_measure, 2);
    match expression.content {
        ContentView::Gather(inner, pairs) => {
            assert(pairs[0].0 == pairs[0].0);
        },
        ContentView::Add(a, b) => {
            lemma_well_sized_simplifies_safely(*a, environment);
            lemma_well_sized_simplifies_safely(*b, environment);
            lemma_well_sized_lanes(*a, environment);
            lemma_well_sized_lanes(*b, environment);
        },
        ContentView::Subtract(a, b) => {
            lemma_well_sized_simplifies_safely(*a, environment);
            lemma_well_sized_simplifies_safely(*b, environment);
            lemma_well_sized_lanes(*a, environment);
            lemma_well_sized_lanes(*b, environment);
        },
        ContentView::Multiply(a, b) => {
            lemma_well_sized_simplifies_safely(*a, environment);
            lemma_well_sized_simplifies_safely(*b, environment);
            lemma_well_sized_lanes(*a, environment);
            lemma_well_sized_lanes(*b, environment);
            lemma_well_sized_stays_present(*a);
            lemma_well_sized_stays_present(*b);
        },
        _ => {},
    }
}

/// Whether no product has two constants for factors.
pub open spec fn constants_apart(expression: ExpressionView) -> bool
    decreases expression,
{
    match expression.content {
        ContentView::Add(a, b) => constants_apart(*a) && constants_apart(*b),
        ContentView::Subtract(a, b) => constants_apart(*a) && constants_apart(*b),
        ContentView::Multiply(a, b) => {
            &&& constants_apart(*a)
            &&& constants_apart(*b)
            &&& !(a.content is Constant && b.content is Constant)
        },
        _ => true,
    }
}

/// One pass settles every well-sized expression in which no product has two constants
/// for factors, and only a constant simplifies to a constant.
pub proof fn lemma_well_sized_settles(expression: ExpressionView)
    requires
        well_sized(expression),
        constants_apart(expression),
    ensures
        settles(expression),
        spec_simplify(expression).content is Constant ==> expression.content is Constant,
        spec_simplify(spec_simplify(expression)) == spec_simplify(expression),
    decreases expression,
{
    reveal_with_fuel(settles, 2);
    match expression.content {
        ContentView::Add(a, b) => {
            lemma_well_sized_settles(*a);
            lemma_well_sized_settles(*b);
            lemma_well_sized_stays_present(*a);
            lemma_well_sized_stays_present(*b);
            reveal_with_fuel(factors_count, 3);
        },
        ContentView::Subtract(a, b) => {
            lemma_well_sized_settles(*a);
            lemma_well_sized_settles(*b);
            lemma_well_sized_stays_present(*a);
            lemma_well_sized_stays_present(*b);
        },
        ContentView::Multiply(a, b) => {
            lemma_well_sized_settles(*a);
            lemma_well_sized_settles(*b);
            lemma_well_sized_stays_present(*a);
            lemma_well_sized_stays_present(*b);
        },
        _ => {},
    }
    crate::simplify::lemma_simplify_is_idempotent(expression);
}

} // verus!
