//! The simplifier: one bottom-up pass of local rewrites over an expression.

use vstd::prelude::*;
use crate::ast::{
    empty_expression, ContentView, DataType, DataTypeView, Expression, ExpressionContent,
    ExpressionView,
};

verus! {

/// The number of nodes that the simplifier may visit.
pub open spec fn rewrite_measure(expression: ExpressionView) -> nat
    decreases expression,
{
    match expression.content {
        ContentView::Gather(inner, _) => 1 + rewrite_measure(*inner),
        ContentView::Add(a, b) => 1 + rewrite_measure(*a) + rewrite_measure(*b),
        ContentView::Subtract(a, b) => 1 + rewrite_measure(*a) + rewrite_measure(*b),
        ContentView::Multiply(a, b) => 1 + rewrite_measure(*a) + rewrite_measure(*b),
        _ => 1,
    }
}

/// Whether every value is `value`.
pub open spec fn all_values(values: Seq<isize>, value: isize) -> bool {
    forall|i: int| 0 <= i < values.len() ==> values[i] == value
}

/// Whether every pair is `pair`.
pub open spec fn all_pairs(pairs: Seq<(usize, usize)>, pair: (usize, usize)) -> bool {
    forall|i: int| 0 <= i < pairs.len() ==> pairs[i] == pair
}

/// Whether every pair addresses the group `group`.
pub open spec fn all_in_group(pairs: Seq<(usize, usize)>, group: usize) -> bool {
    forall|i: int| 0 <= i < pairs.len() ==> pairs[i].0 == group
}

/// Whether the pairs address the lanes `0, 1, 2, ...` in this order.
pub open spec fn identity_lanes(pairs: Seq<(usize, usize)>) -> bool {
    forall|i: int| 0 <= i < pairs.len() ==> pairs[i].1 == i
}

/// The lanes that the pairs address.
pub open spec fn lanes_of(pairs: Seq<(usize, usize)>) -> Seq<usize> {
    pairs.map_values(|pair: (usize, usize)| pair.1)
}

/// A gather of at least one pair, its inner expression already simplified: a broadcast
/// keeps one pair, a whole group becomes an access, a permuted group a swizzle of one.
pub open spec fn gather_rewrite(
    size: usize,
    inner: ExpressionView,
    pairs: Seq<(usize, usize)>,
) -> ExpressionView {
    if all_pairs(pairs, pairs[0]) {
        ExpressionView { size, content: ContentView::Gather(Box::new(inner), seq![pairs[0]]) }
    } else if inner.size == size && all_in_group(pairs, pairs[0].0) {
        let access = ExpressionView { size, content: ContentView::Access(Box::new(inner), pairs[0].0) };
        if identity_lanes(pairs) {
            access
        } else {
            ExpressionView { size, content: ContentView::Swizzle(Box::new(access), lanes_of(pairs)) }
        }
    } else {
        ExpressionView { size, content: ContentView::Gather(Box::new(inner), pairs) }
    }
}

/// A constant whose values are all the same keeps one of them.
pub open spec fn constant_rewrite(
    size: usize,
    data_type: DataTypeView,
    values: Seq<isize>,
) -> ExpressionView {
    if values.len() > 0 && all_values(values, values[0]) {
        ExpressionView { size, content: ContentView::Constant(data_type, seq![values[0]]) }
    } else {
        ExpressionView { size, content: ContentView::Constant(data_type, values) }
    }
}

/// The factors `c` and `e` of an expression of the form `c * (e * -1)`.
pub open spec fn negated_product(expression: ExpressionView) -> Option<
    (ExpressionView, ExpressionView),
> {
    match expression.content {
        ContentView::Multiply(c, d) => match d.content {
            ContentView::Multiply(e, f) => match f.content {
                ContentView::Constant(_, values) => if all_values(values, -1isize) {
                    Some((*c, *e))
                } else {
                    None
                },
                _ => None,
            },
            _ => None,
        },
        _ => None,
    }
}

/// A sum of simplified operands: an absent operand leaves the other.
pub open spec fn add_rewrite(size: usize, a: ExpressionView, b: ExpressionView) -> ExpressionView {
    if a.content is Empty {
        b
    } else if b.content is Empty {
        a
    } else {
        ExpressionView { size, content: ContentView::Add(Box::new(a), Box::new(b)) }
    }
}

/// A difference of simplified operands: an absent subtrahend leaves the minuend, be
/// that absent or not; an absent minuend before a subtrahend becomes zero.
pub open spec fn subtract_rewrite(
    size: usize,
    a: ExpressionView,
    b: ExpressionView,
) -> ExpressionView {
    if b.content is Empty {
        a
    } else if a.content is Empty {
        let zero = ExpressionView {
            size,
            content: ContentView::Constant(DataTypeView::SimdVector(size), seq![0isize]),
        };
        ExpressionView { size, content: ContentView::Subtract(Box::new(zero), Box::new(b)) }
    } else {
        ExpressionView { size, content: ContentView::Subtract(Box::new(a), Box::new(b)) }
    }
}

/// A product of simplified operands: a constant moves to the right, an absent operand
/// leaves the other, a factor of ones leaves the other, a factor of zeros leaves nothing.
pub open spec fn multiply_rewrite(
    size: usize,
    a: ExpressionView,
    b: ExpressionView,
) -> ExpressionView {
    let (left, right) = if a.content is Constant {
        (b, a)
    } else {
        (a, b)
    };
    if left.content is Empty {
        right
    } else {
        match right.content {
            ContentView::Empty => left,
            ContentView::Constant(_, values) => if all_values(values, 1) {
                left
            } else if all_values(values, 0) {
                empty_expression(size)
            } else {
                ExpressionView { size, content: ContentView::Multiply(Box::new(left), Box::new(right)) }
            },
            _ => ExpressionView { size, content: ContentView::Multiply(Box::new(left), Box::new(right)) },
        }
    }
}

/// A sum of simplified operands: where the right one has the form `c * (e * -1)`, the
/// sum becomes the difference `a - c * e`; else an absent operand leaves the other.
pub open spec fn sum_rewrite(size: usize, a: ExpressionView, b: ExpressionView) -> ExpressionView {
    match negated_product(b) {
        Some((c, e)) => subtract_rewrite(size, a, multiply_rewrite(size, c, e)),
        None => add_rewrite(size, a, b),
    }
}

/// The simplified expression: the operands of a gather, a sum, a difference or a
/// product are simplified first, then the node itself is rewritten.
pub open spec fn spec_simplify(expression: ExpressionView) -> ExpressionView
    decreases rewrite_measure(expression),
{
    let size = expression.size;
    match expression.content {
        ContentView::Gather(inner, pairs) => if pairs.len() == 0 {
            empty_expression(size)
        } else {
            gather_rewrite(size, spec_simplify(*inner), pairs)
        },
        ContentView::Constant(data_type, values) => constant_rewrite(size, data_type, values),
        ContentView::Add(a, b) => sum_rewrite(size, spec_simplify(*a), spec_simplify(*b)),
        ContentView::Subtract(a, b) => subtract_rewrite(size, spec_simplify(*a), spec_simplify(*b)),
        ContentView::Multiply(a, b) => multiply_rewrite(size, spec_simplify(*a), spec_simplify(*b)),
        _ => expression,
    }
}

fn every_value_is(values: &Vec<isize>, value: isize) -> (all: bool)
    ensures
        all == all_values(values@, value),
{
    let mut i: usize = 0;
    while i < values.len()
        invariant
            i <= values.len(),
            forall|k: int| 0 <= k < i ==> values@[k] == value,
        decreases values.len() - i,
    {
        if values[i] != value {
            return false;
        }
        i += 1;
    }
    true
}

fn every_pair_is(pairs: &Vec<(usize, usize)>, pair: (usize, usize)) -> (all: bool)
    ensures
        all == all_pairs(pairs@, pair),
{
    let mut i: usize = 0;
    while i < pairs.len()
        invariant
            i <= pairs.len(),
            forall|k: int| 0 <= k < i ==> pairs@[k] == pair,
        decreases pairs.len() - i,
    {
        if pairs[i].0 != pair.0 || pairs[i].1 != pair.1 {
            return false;
        }
        i += 1;
    }
    true
}

fn every_pair_in_group(pairs: &Vec<(usize, usize)>, group: usize) -> (all: bool)
    ensures
        all == all_in_group(pairs@, group),
{
    let mut i: usize = 0;
    while i < pairs.len()
        invariant
            i <= pairs.len(),
            forall|k: int| 0 <= k < i ==> pairs@[k].0 == group,
        decreases pairs.len() - i,
    {
        if pairs[i].0 != group {
            return false;
        }
        i += 1;
    }
    true
}

fn lanes_in_order(pairs: &Vec<(usize, usize)>) -> (all: bool)
    ensures
        all == identity_lanes(pairs@),
{
    let mut i: usize = 0;
    while i < pairs.len()
        invariant
            i <= pairs.len(),
            forall|k: int| 0 <= k < i ==> pairs@[k].1 == k,
        decreases pairs.len() - i,
    {
        if pairs[i].1 != i {
            return false;
        }
        i += 1;
    }
    true
}

fn lanes(pairs: &Vec<(usize, usize)>) -> (lanes: Vec<usize>)
    ensures
        lanes@ == lanes_of(pairs@),
{
    let mut lanes: Vec<usize> = Vec::new();
    let mut i: usize = 0;
    while i < pairs.len()
        invariant
            i <= pairs.len(),
            lanes@.len() == i,
            forall|k: int| 0 <= k < i ==> lanes@[k] == pairs@[k].1,
        decreases pairs.len() - i,
    {
        lanes.push(pairs[i].1);
        i += 1;
    }
    assert(lanes@ =~= lanes_of(pairs@));
    lanes
}

fn is_negative_one<'a>(expression: &Expression<'a>) -> (negative: bool)
    ensures
        negative == (expression.view().content matches ContentView::Constant(_, values)
            && all_values(values, -1isize)),
{
    match &expression.content {
        ExpressionContent::Constant(_, values) => every_value_is(values, -1),
        _ => false,
    }
}

/// Takes `c * (e * -1)` apart into `c` and `e`; gives any other expression back.
fn split_negated_product<'a>(expression: Box<Expression<'a>>) -> (parts: Result<
    (Box<Expression<'a>>, Box<Expression<'a>>),
    Box<Expression<'a>>,
>)
    ensures
        match parts {
            Ok((c, e)) => negated_product(expression.view()) == Some((c.view(), e.view())),
            Err(same) => negated_product(expression.view()) is None && same.view()
                == expression.view(),
        },
{
    proof {
        reveal_with_fuel(Expression::view, 3);
        reveal_with_fuel(ExpressionContent::view, 3);
    }
    let Expression { size, content } = *expression;
    match content {
        ExpressionContent::Multiply(c, d) => {
            let Expression { size: inner_size, content: inner_content } = *d;
            match inner_content {
                ExpressionContent::Multiply(e, f) => {
                    if is_negative_one(&f) {
                        Ok((c, e))
                    } else {
                        Err(
                            Box::new(
                                Expression {
                                    size,
                                    content: ExpressionContent::Multiply(
                                        c,
                                        Box::new(
                                            Expression {
                                                size: inner_size,
                                                content: ExpressionContent::Multiply(e, f),
                                            },
                                        ),
                                    ),
                                },
                            ),
                        )
                    }
                },
                other => Err(
                    Box::new(
                        Expression {
                            size,
                            content: ExpressionContent::Multiply(
                                c,
                                Box::new(Expression { size: inner_size, content: other }),
                            ),
                        },
                    ),
                ),
            }
        },
        other => Err(Box::new(Expression { size, content: other })),
    }
}

/// The difference of two simplified operands.
fn difference_of<'a>(size: usize, a: Box<Expression<'a>>, b: Box<Expression<'a>>) -> (difference:
    Box<Expression<'a>>)
    ensures
        difference.view() == subtract_rewrite(size, a.view(), b.view()),
{
    proof {
        reveal_with_fuel(Expression::view, 3);
        reveal_with_fuel(ExpressionContent::view, 3);
    }
    if b.content.is_empty() {
        a
    } else if a.content.is_empty() {
        let zero = vec![0isize];
        assert(zero@ =~= seq![0isize]);
        let constant = Expression {
            size,
            content: ExpressionContent::Constant(DataType::SimdVector(size), zero),
        };
        Box::new(Expression { size, content: ExpressionContent::Subtract(Box::new(constant), b) })
    } else {
        Box::new(Expression { size, content: ExpressionContent::Subtract(a, b) })
    }
}

/// The product of two simplified operands.
fn product_of<'a>(size: usize, a: Box<Expression<'a>>, b: Box<Expression<'a>>) -> (product: Box<
    Expression<'a>,
>)
    ensures
        product.view() == multiply_rewrite(size, a.view(), b.view()),
{
    proof {
        reveal_with_fuel(Expression::view, 3);
        reveal_with_fuel(ExpressionContent::view, 3);
    }
    let (left, right) = if is_constant(&a) {
        (b, a)
    } else {
        (a, b)
    };
    if left.content.is_empty() {
        right
    } else {
        let factor = constant_factor(&right);
        match factor {
            Factor::Absent => left,
            Factor::Ones => left,
            Factor::Zeros => Box::new(Expression { size, content: ExpressionContent::Empty }),
            Factor::Other => Box::new(
                Expression { size, content: ExpressionContent::Multiply(left, right) },
            ),
        }
    }
}

/// Simplifies an expression in one pass from the leaves up: gathers of one group
/// become accesses and swizzles, uniform constants become broadcasts, absent operands
/// and factors of one drop out, and `a + c * (e * -1)` becomes `a - c * e`.
pub fn simplify_and_legalize<'a>(expression: Box<Expression<'a>>) -> (simplified: Box<
    Expression<'a>,
>)
    ensures
        simplified.view() == spec_simplify(expression.view()),
    decreases rewrite_measure(expression.view()),
{
    let ghost given = expression.view();
    proof {
        reveal_with_fuel(Expression::view, 3);
        reveal_with_fuel(ExpressionContent::view, 3);
        reveal_with_fuel(rewrite_measure, 2);
    }
    let Expression { size, content } = *expression;
    match content {
        ExpressionContent::Gather(inner, pairs) => {
            if pairs.len() == 0 {
                return Box::new(Expression { size, content: ExpressionContent::Empty });
            }
            let inner = simplify_and_legalize(inner);
            let first = pairs[0];
            if every_pair_is(&pairs, first) {
                let kept = vec![first];
                assert(kept@ =~= seq![pairs@[0]]);
                Box::new(Expression { size, content: ExpressionContent::Gather(inner, kept) })
            } else if inner.size == size && every_pair_in_group(&pairs, first.0) {
                let in_order = lanes_in_order(&pairs);
                let permutation = lanes(&pairs);
                let access = Box::new(
                    Expression { size, content: ExpressionContent::Access(inner, first.0) },
                );
                if in_order {
                    access
                } else {
                    Box::new(Expression { size, content: ExpressionContent::Swizzle(access, permutation) })
                }
            } else {
                Box::new(Expression { size, content: ExpressionContent::Gather(inner, pairs) })
            }
        },
        ExpressionContent::Constant(data_type, values) => {
            if values.len() > 0 && every_value_is(&values, values[0]) {
                let kept = vec![values[0]];
                assert(kept@ =~= seq![values@[0]]);
                Box::new(Expression { size, content: ExpressionContent::Constant(data_type, kept) })
            } else {
                Box::new(Expression { size, content: ExpressionContent::Constant(data_type, values) })
            }
        },
        ExpressionContent::Add(a, b) => {
            let a = simplify_and_legalize(a);
            let b = simplify_and_legalize(b);
            match split_negated_product(b) {
                Ok((c, e)) => {
                    let product = product_of(size, c, e);
                    difference_of(size, a, product)
                },
                Err(b) => {
                    if a.content.is_empty() {
                        b
                    } else if b.content.is_empty() {
                        a
                    } else {
                        Box::new(Expression { size, content: ExpressionContent::Add(a, b) })
                    }
                },
            }
        },
        ExpressionContent::Subtract(a, b) => {
            let a = simplify_and_legalize(a);
            let b = simplify_and_legalize(b);
            difference_of(size, a, b)
        },
        ExpressionContent::Multiply(a, b) => {
            let a = simplify_and_legalize(a);
            let b = simplify_and_legalize(b);
            product_of(size, a, b)
        },
        other => Box::new(Expression { size, content: other }),
    }
}

/// What kind of right factor a product has.
enum Factor {
    Absent,
    Ones,
    Zeros,
    Other,
}

fn is_constant<'a>(expression: &Expression<'a>) -> (constant: bool)
    ensures
        constant == (expression.view().content is Constant),
{
    match &expression.content {
        ExpressionContent::Constant(_, _) => true,
        _ => false,
    }
}

fn constant_factor<'a>(expression: &Expression<'a>) -> (factor: Factor)
    ensures
        match expression.view().content {
            ContentView::Empty => factor is Absent,
            ContentView::Constant(_, values) => if all_values(values, 1) {
                factor is Ones
            } else if all_values(values, 0) {
                factor is Zeros
            } else {
                factor is Other
            },
            _ => factor is Other,
        },
{
    match &expression.content {
        ExpressionContent::Empty => Factor::Absent,
        ExpressionContent::Constant(_, values) => {
            if every_value_is(values, 1) {
                Factor::Ones
            } else if every_value_is(values, 0) {
                Factor::Zeros
            } else {
                Factor::Other
            }
        },
        _ => Factor::Other,
    }
}

/// Whether an expression and all the operands that the simplifier visits have as many
/// lanes as their parents: the two sides of a sum, difference or product are as wide
/// as the whole.
pub open spec fn lanes_agree(expression: ExpressionView) -> bool
    decreases expression,
{
    match expression.content {
        ContentView::Gather(inner, _) => lanes_agree(*inner),
        ContentView::Add(a, b) => a.size == expression.size && b.size == expression.size
            && lanes_agree(*a) && lanes_agree(*b),
        ContentView::Subtract(a, b) => a.size == expression.size && b.size == expression.size
            && lanes_agree(*a) && lanes_agree(*b),
        ContentView::Multiply(a, b) => a.size == expression.size && b.size == expression.size
            && lanes_agree(*a) && lanes_agree(*b),
        _ => true,
    }
}

/// Gathers, sums, differences and products of operands as wide as themselves are as
/// wide as themselves; variables and constants always are.
pub proof fn lemma_lanes_agree(size: usize, a: ExpressionView, b: ExpressionView)
    ensures
        a.content is Variable || a.content is Constant || a.content is Empty ==> lanes_agree(a),
        forall|pairs: Seq<(usize, usize)>|
            lanes_agree(a) ==> #[trigger] lanes_agree(
                ExpressionView { size, content: ContentView::Gather(Box::new(a), pairs) },
            ),
        a.size == size && b.size == size && lanes_agree(a) && lanes_agree(b) ==> {
            &&& lanes_agree(
                ExpressionView { size, content: ContentView::Add(Box::new(a), Box::new(b)) },
            )
            &&& lanes_agree(
                ExpressionView { size, content: ContentView::Subtract(Box::new(a), Box::new(b)) },
            )
            &&& lanes_agree(
                ExpressionView { size, content: ContentView::Multiply(Box::new(a), Box::new(b)) },
            )
        },
        lanes_agree(ExpressionView { size, content: ContentView::Divide(Box::new(a), Box::new(b)) }),
{
    reveal_with_fuel(lanes_agree, 2);
}

/// Simplifying an expression whose operands are as wide as itself keeps its width.
pub proof fn lemma_simplify_keeps_size(expression: ExpressionView)
    requires
        lanes_agree(expression),
    ensures
        spec_simplify(expression).size == expression.size,
    decreases rewrite_measure(expression),
{
    reveal_with_fuel(rewrite_measure, 3);
    reveal_with_fuel(lanes_agree, 3);
    match expression.content {
        ContentView::Gather(inner, pairs) => {
            if pairs.len() > 0 {
                lemma_simplify_keeps_size(*inner);
            }
        },
        ContentView::Add(a, b) => {
            lemma_simplify_keeps_size(*a);
            lemma_simplify_keeps_size(*b);
        },
        ContentView::Subtract(a, b) => {
            lemma_simplify_keeps_size(*a);
            lemma_simplify_keeps_size(*b);
        },
        ContentView::Multiply(a, b) => {
            lemma_simplify_keeps_size(*a);
            lemma_simplify_keeps_size(*b);
        },
        _ => {},
    }
}

/// Whether a constant is a factor that a product keeps: its values are neither all one
/// nor all zero.
pub open spec fn proper_factor(expression: ExpressionView) -> bool {
    expression.content matches ContentView::Constant(_, values) && !all_values(values, 1)
        && !all_values(values, 0)
}

/// Whether one more pass changes nothing: every gather keeps one pair or cannot
/// become an access or a swizzle, every constant keeps one value or is not uniform,
/// no operand of a sum, difference or product is absent, no sum has the form
/// `a + c * (e * -1)`, and in a product the constant stands on the right and is
/// neither all one nor all zero. Only the nodes that the simplifier visits count.
pub open spec fn settled(expression: ExpressionView) -> bool
    decreases expression,
{
    match expression.content {
        ContentView::Gather(inner, pairs) => {
            &&& settled(*inner)
            &&& pairs.len() > 0
            &&& pairs.len() == 1 || (!all_pairs(pairs, pairs[0]) && !(inner.size
                == expression.size && all_in_group(pairs, pairs[0].0)))
        },
        ContentView::Constant(_, values) => values.len() == 1 || !(values.len() > 0
            && all_values(values, values[0])),
        ContentView::Add(a, b) => {
            &&& settled(*a)
            &&& settled(*b)
            &&& !(a.content is Empty)
            &&& !(b.content is Empty)
            &&& negated_product(*b) is None
        },
        ContentView::Subtract(a, b) => {
            &&& settled(*a)
            &&& settled(*b)
            &&& !(a.content is Empty)
            &&& !(b.content is Empty)
        },
        ContentView::Multiply(a, b) => {
            &&& settled(*a)
            &&& settled(*b)
            &&& !(a.content is Empty)
            &&& !(a.content is Constant)
            &&& !(b.content is Empty)
            &&& b.content is Constant ==> proper_factor(*b)
        },
        _ => true,
    }
}

/// Whether one pass settles an expression. One kind of tree never settles and is left
/// out: a product whose factors both simplify to constants, the first of them neither
/// all one nor all zero, because every pass moves the first constant to the right.
pub open spec fn settles(expression: ExpressionView) -> bool
    decreases expression,
{
    match expression.content {
        ContentView::Gather(inner, pairs) => pairs.len() > 0 ==> settles(*inner),
        ContentView::Add(a, b) => settles(*a) && settles(*b),
        ContentView::Subtract(a, b) => settles(*a) && settles(*b),
        ContentView::Multiply(a, b) => {
            &&& settles(*a)
            &&& settles(*b)
            &&& !(proper_factor(spec_simplify(*a)) && spec_simplify(*b).content is Constant)
        },
        _ => true,
    }
}

/// A pass changes nothing in a settled expression.
pub proof fn lemma_settled_stays(expression: ExpressionView)
    requires
        settled(expression),
    ensures
        spec_simplify(expression) == expression,
    decreases expression,
{
    let size = expression.size;
    match expression.content {
        ContentView::Gather(inner, pairs) => {
            lemma_settled_stays(*inner);
            if pairs.len() == 1 {
                assert(seq![pairs[0]] =~= pairs);
            }
        },
        ContentView::Constant(_, values) => {
            if values.len() == 1 {
                assert(seq![values[0]] =~= values);
            }
        },
        ContentView::Add(a, b) => {
            lemma_settled_stays(*a);
            lemma_settled_stays(*b);
        },
        ContentView::Subtract(a, b) => {
            lemma_settled_stays(*a);
            lemma_settled_stays(*b);
        },
        ContentView::Multiply(a, b) => {
            lemma_settled_stays(*a);
            lemma_settled_stays(*b);
        },
        _ => {},
    }
}

/// The product of two settled operands is settled, unless every pass swaps them.
proof fn lemma_product_settles(size: usize, a: ExpressionView, b: ExpressionView)
    requires
        settled(a),
        settled(b),
        !(proper_factor(a) && b.content is Constant),
    ensures
        settled(multiply_rewrite(size, a, b)),
{
    reveal_with_fuel(settled, 2);
}

/// The difference of two settled operands is settled.
proof fn lemma_difference_settles(size: usize, a: ExpressionView, b: ExpressionView)
    requires
        settled(a),
        settled(b),
    ensures
        settled(subtract_rewrite(size, a, b)),
{
    reveal_with_fuel(settled, 2);
}

/// The sum of two settled operands is settled.
proof fn lemma_sum_settles(size: usize, a: ExpressionView, b: ExpressionView)
    requires
        settled(a),
        settled(b),
    ensures
        settled(sum_rewrite(size, a, b)),
{
    reveal_with_fuel(settled, 3);
    match negated_product(b) {
        Some((c, e)) => {
            lemma_product_settles(size, c, e);
            lemma_difference_settles(size, a, multiply_rewrite(size, c, e));
        },
        None => {},
    }
}

/// One pass settles every expression that settles at all.
pub proof fn lemma_simplify_settles(expression: ExpressionView)
    requires
        settles(expression),
    ensures
        settled(spec_simplify(expression)),
    decreases expression,
{
    let size = expression.size;
    match expression.content {
        ContentView::Gather(inner, pairs) => {
            if pairs.len() > 0 {
                lemma_simplify_settles(*inner);
                reveal_with_fuel(settled, 3);
            }
        },
        ContentView::Constant(_, values) => {},
        ContentView::Add(a, b) => {
            lemma_simplify_settles(*a);
            lemma_simplify_settles(*b);
            lemma_sum_settles(size, spec_simplify(*a), spec_simplify(*b));
        },
        ContentView::Subtract(a, b) => {
            lemma_simplify_settles(*a);
            lemma_simplify_settles(*b);
            lemma_difference_settles(size, spec_simplify(*a), spec_simplify(*b));
        },
        ContentView::Multiply(a, b) => {
            lemma_simplify_settles(*a);
            lemma_simplify_settles(*b);
            lemma_product_settles(size, spec_simplify(*a), spec_simplify(*b));
        },
        _ => {},
    }
}

/// One pass reaches the fixed point: simplifying what was simplified changes nothing.
pub proof fn lemma_simplify_is_idempotent(expression: ExpressionView)
    requires
        settles(expression),
    ensures
        spec_simplify(spec_simplify(expression)) == spec_simplify(expression),
{
    lemma_simplify_settles(expression);
    lemma_settled_stays(spec_simplify(expression));
}

} // verus!
