use geometric_algebra::ast::{DataType, Expression, ExpressionContent};
use geometric_algebra::simplify::simplify_and_legalize;

fn node<'a>(size: usize, content: ExpressionContent<'a>) -> Box<Expression<'a>> {
    Box::new(Expression { size, content })
}

fn variable<'a>(name: &'static str, size: usize) -> Box<Expression<'a>> {
    node(size, ExpressionContent::Variable(name))
}

fn constant<'a>(size: usize, values: &[isize]) -> Box<Expression<'a>> {
    node(size, ExpressionContent::Constant(DataType::SimdVector(size), values.to_vec()))
}

fn gather<'a>(size: usize, inner: Box<Expression<'a>>, pairs: &[(usize, usize)]) -> Box<Expression<'a>> {
    node(size, ExpressionContent::Gather(inner, pairs.to_vec()))
}

#[test]
fn sum_with_negated_product_becomes_difference() {
    let x = || variable("x", 4);
    let y = || variable("y", 4);
    let z = || variable("z", 4);
    let negated = node(
        4,
        ExpressionContent::Multiply(
            y(),
            node(4, ExpressionContent::Multiply(z(), constant(4, &[-1, -1, -1, -1]))),
        ),
    );
    let simplified = simplify_and_legalize(node(4, ExpressionContent::Add(x(), negated)));
    let expected =
        node(4, ExpressionContent::Subtract(x(), node(4, ExpressionContent::Multiply(y(), z()))));
    assert_eq!(simplified, expected);
}

#[test]
fn sum_with_negated_broadcast_becomes_difference() {
    let negated = node(
        2,
        ExpressionContent::Multiply(
            variable("y", 2),
            node(2, ExpressionContent::Multiply(variable("z", 2), constant(2, &[-1]))),
        ),
    );
    let simplified =
        simplify_and_legalize(node(2, ExpressionContent::Add(variable("x", 2), negated)));
    let expected = node(
        2,
        ExpressionContent::Subtract(
            variable("x", 2),
            node(2, ExpressionContent::Multiply(variable("y", 2), variable("z", 2))),
        ),
    );
    assert_eq!(simplified, expected);
}

#[test]
fn gather_of_a_whole_group_becomes_access() {
    let simplified =
        simplify_and_legalize(gather(4, variable("v", 4), &[(0, 0), (0, 1), (0, 2), (0, 3)]));
    assert_eq!(simplified, node(4, ExpressionContent::Access(variable("v", 4), 0)));
    let simplified = simplify_and_legalize(gather(2, variable("v", 2), &[(3, 0), (3, 1)]));
    assert_eq!(simplified, node(2, ExpressionContent::Access(variable("v", 2), 3)));
}

#[test]
fn gather_of_a_permuted_group_becomes_swizzle() {
    let simplified =
        simplify_and_legalize(gather(4, variable("v", 4), &[(0, 3), (0, 2), (0, 1), (0, 0)]));
    let expected = node(
        4,
        ExpressionContent::Swizzle(
            node(4, ExpressionContent::Access(variable("v", 4), 0)),
            vec![3, 2, 1, 0],
        ),
    );
    assert_eq!(simplified, expected);
}

#[test]
fn gather_of_one_lane_keeps_one_pair() {
    let simplified = simplify_and_legalize(gather(3, variable("v", 4), &[(1, 2), (1, 2), (1, 2)]));
    assert_eq!(simplified, gather(3, variable("v", 4), &[(1, 2)]));
    let simplified = simplify_and_legalize(gather(1, variable("v", 1), &[(0, 0)]));
    assert_eq!(simplified, gather(1, variable("v", 1), &[(0, 0)]));
}

#[test]
fn gather_across_groups_or_widths_stays() {
    let across = gather(2, variable("v", 2), &[(0, 0), (1, 1)]);
    assert_eq!(simplify_and_legalize(across), gather(2, variable("v", 2), &[(0, 0), (1, 1)]));
    let narrower = gather(2, variable("v", 4), &[(0, 0), (0, 1)]);
    assert_eq!(simplify_and_legalize(narrower), gather(2, variable("v", 4), &[(0, 0), (0, 1)]));
}

#[test]
fn gather_of_nothing_is_absent() {
    let simplified = simplify_and_legalize(gather(3, variable("v", 3), &[]));
    assert_eq!(simplified, node(3, ExpressionContent::Empty));
}

#[test]
fn gather_simplifies_what_it_gathers_from() {
    let inner = gather(2, variable("v", 2), &[(0, 0), (0, 1)]);
    let outer = gather(2, inner, &[(0, 1), (0, 0)]);
    let expected = node(
        2,
        ExpressionContent::Swizzle(
            node(
                2,
                ExpressionContent::Access(
                    node(2, ExpressionContent::Access(variable("v", 2), 0)),
                    0,
                ),
            ),
            vec![1, 0],
        ),
    );
    assert_eq!(simplify_and_legalize(outer), expected);
}

#[test]
fn uniform_constant_becomes_broadcast() {
    assert_eq!(simplify_and_legalize(constant(3, &[2, 2, 2])), constant(3, &[2]));
    assert_eq!(simplify_and_legalize(constant(3, &[2, 2, 1])), constant(3, &[2, 2, 1]));
    assert_eq!(simplify_and_legalize(constant(1, &[7])), constant(1, &[7]));
    assert_eq!(simplify_and_legalize(constant(2, &[])), constant(2, &[]));
}

#[test]
fn absent_operands_of_a_sum_drop_out() {
    let absent = || node(2, ExpressionContent::Empty);
    let x = || variable("x", 2);
    assert_eq!(simplify_and_legalize(node(2, ExpressionContent::Add(absent(), x()))), x());
    assert_eq!(simplify_and_legalize(node(2, ExpressionContent::Add(x(), absent()))), x());
    assert_eq!(
        simplify_and_legalize(node(2, ExpressionContent::Add(x(), variable("y", 2)))),
        node(2, ExpressionContent::Add(x(), variable("y", 2)))
    );
    assert_eq!(simplify_and_legalize(node(2, ExpressionContent::Add(absent(), absent()))), absent());
}

#[test]
fn absent_operands_of_a_difference() {
    let absent = || node(2, ExpressionContent::Empty);
    let x = || variable("x", 2);
    assert_eq!(
        simplify_and_legalize(node(2, ExpressionContent::Subtract(absent(), x()))),
        node(2, ExpressionContent::Subtract(constant(2, &[0]), x()))
    );
    assert_eq!(simplify_and_legalize(node(2, ExpressionContent::Subtract(x(), absent()))), x());
    assert_eq!(
        simplify_and_legalize(node(2, ExpressionContent::Subtract(absent(), absent()))),
        absent()
    );
}

#[test]
fn products_with_constants() {
    let x = || variable("x", 2);
    // the constant moves to the right
    assert_eq!(
        simplify_and_legalize(node(2, ExpressionContent::Multiply(constant(2, &[2, 3]), x()))),
        node(2, ExpressionContent::Multiply(x(), constant(2, &[2, 3])))
    );
    // a factor of ones drops out, on either side
    assert_eq!(
        simplify_and_legalize(node(2, ExpressionContent::Multiply(x(), constant(2, &[1, 1])))),
        x()
    );
    assert_eq!(
        simplify_and_legalize(node(2, ExpressionContent::Multiply(constant(2, &[1, 1]), x()))),
        x()
    );
    // a factor of zeros leaves nothing
    assert_eq!(
        simplify_and_legalize(node(2, ExpressionContent::Multiply(x(), constant(2, &[0, 0])))),
        node(2, ExpressionContent::Empty)
    );
    // an absent factor leaves the other
    assert_eq!(
        simplify_and_legalize(node(
            2,
            ExpressionContent::Multiply(node(2, ExpressionContent::Empty), x())
        )),
        x()
    );
    assert_eq!(
        simplify_and_legalize(node(
            2,
            ExpressionContent::Multiply(x(), node(2, ExpressionContent::Empty))
        )),
        x()
    );
}

#[test]
fn other_nodes_stay() {
    let divide = || {
        node(
            2,
            ExpressionContent::Divide(
                gather(2, variable("v", 2), &[(0, 0), (0, 1)]),
                constant(2, &[1, 1]),
            ),
        )
    };
    assert_eq!(simplify_and_legalize(divide()), divide());
    assert_eq!(simplify_and_legalize(variable("v", 3)), variable("v", 3));
    let root = || node(1, ExpressionContent::SquareRoot(constant(1, &[4])));
    assert_eq!(simplify_and_legalize(root()), root());
}

#[test]
fn terms_of_a_product_simplify_to_a_fused_form() {
    // a.g0[0] broadcast * (b.g0 * [1, -1]) summed onto nothing
    let term = node(
        2,
        ExpressionContent::Multiply(
            gather(2, variable("self", 2), &[(0, 0), (0, 0)]),
            node(
                2,
                ExpressionContent::Multiply(
                    gather(2, variable("other", 2), &[(0, 0), (0, 1)]),
                    constant(2, &[1, -1]),
                ),
            ),
        ),
    );
    let simplified = simplify_and_legalize(node(
        2,
        ExpressionContent::Add(node(2, ExpressionContent::Empty), term),
    ));
    let expected = node(
        2,
        ExpressionContent::Multiply(
            gather(2, variable("self", 2), &[(0, 0)]),
            node(
                2,
                ExpressionContent::Multiply(
                    node(2, ExpressionContent::Access(variable("other", 2), 0)),
                    constant(2, &[1, -1]),
                ),
            ),
        ),
    );
    assert_eq!(simplified, expected);
}

/// A small generator of numbers, the same on every run.
struct Numbers(u64);

impl Numbers {
    fn next(&mut self, bound: usize) -> usize {
        self.0 = self.0.wrapping_mul(6364136223846793005).wrapping_add(1442695040888963407);
        ((self.0 >> 33) as usize) % bound
    }
}

const WIDTHS: [usize; 3] = [3, 1, 2];

fn groups(seed: f64) -> Vec<Vec<f64>> {
    let mut value = seed;
    WIDTHS
        .iter()
        .map(|width| {
            (0..*width)
                .map(|_| {
                    value = value * 1.25 + 1.0;
                    value
                })
                .collect()
        })
        .collect()
}

fn random_tree<'a>(numbers: &mut Numbers, size: usize, depth: usize) -> Box<Expression<'a>> {
    let choice = if depth == 0 { [0, 1, 6][numbers.next(3)] } else { numbers.next(7) };
    match choice {
        6 => variable(if numbers.next(2) == 0 { "a" } else { "b" }, size),
        0 => {
            let name = if numbers.next(2) == 0 { "a" } else { "b" };
            let pairs: Vec<(usize, usize)> = if numbers.next(3) == 0 {
                // a whole group or a part of one, in some order
                let group = numbers.next(WIDTHS.len());
                (0..size).map(|lane| (group, (lane + numbers.next(2)) % WIDTHS[group])).collect()
            } else {
                (0..size)
                    .map(|_| {
                        let group = numbers.next(WIDTHS.len());
                        (group, numbers.next(WIDTHS[group]))
                    })
                    .collect()
            };
            gather(size, variable(name, WIDTHS[pairs[0].0]), &pairs)
        }
        1 => {
            let uniform = numbers.next(3) == 0;
            let first = numbers.next(5) as isize - 2;
            let values: Vec<isize> = (0..size)
                .map(|_| if uniform { first } else { numbers.next(5) as isize - 2 })
                .collect();
            constant(size, &values)
        }
        2 | 3 => node(
            size,
            ExpressionContent::Add(
                random_tree(numbers, size, depth - 1),
                random_tree(numbers, size, depth - 1),
            ),
        ),
        4 => node(
            size,
            ExpressionContent::Subtract(
                random_tree(numbers, size, depth - 1),
                random_tree(numbers, size, depth - 1),
            ),
        ),
        _ => node(
            size,
            ExpressionContent::Multiply(
                random_tree(numbers, size, depth - 1),
                random_tree(numbers, size, depth - 1),
            ),
        ),
    }
}

fn evaluate(expression: &Expression, a: &Vec<Vec<f64>>, b: &Vec<Vec<f64>>) -> Vec<f64> {
    let of = |inner: &Expression| match inner.content {
        ExpressionContent::Variable("a") => a,
        ExpressionContent::Variable("b") => b,
        _ => panic!("expected a variable"),
    };
    let spread = |values: Vec<f64>| {
        if values.len() == 1 { vec![values[0]; expression.size] } else { values }
    };
    let binary = |x: &Expression, y: &Expression, operation: fn(f64, f64) -> f64| {
        let (x, y) = (evaluate(x, a, b), evaluate(y, a, b));
        assert_eq!((x.len(), y.len()), (expression.size, expression.size));
        x.iter().zip(y.iter()).map(|(x, y)| operation(*x, *y)).collect::<Vec<f64>>()
    };
    match &expression.content {
        ExpressionContent::Empty => vec![0.0; expression.size],
        ExpressionContent::Variable(_) => of(expression)[0][..expression.size].to_vec(),
        ExpressionContent::Gather(inner, pairs) => {
            spread(pairs.iter().map(|(group, lane)| of(inner)[*group][*lane]).collect())
        }
        ExpressionContent::Access(inner, group) => of(inner)[*group].clone(),
        ExpressionContent::Swizzle(inner, order) => {
            let values = evaluate(inner, a, b);
            order.iter().map(|lane| values[*lane]).collect()
        }
        ExpressionContent::Constant(_, values) => {
            spread(values.iter().map(|value| *value as f64).collect())
        }
        ExpressionContent::Add(x, y) => binary(x, y, |x, y| x + y),
        ExpressionContent::Subtract(x, y) => binary(x, y, |x, y| x - y),
        ExpressionContent::Multiply(x, y) => binary(x, y, |x, y| x * y),
        other => panic!("cannot evaluate {:?}", other),
    }
}

/// Whether no product of the tree loses a factor that matters: where one factor
/// simplifies to nothing, the other is zero.
fn keeps_its_factors(expression: &Expression, a: &Vec<Vec<f64>>, b: &Vec<Vec<f64>>) -> bool {
    let nothing = |operand: &Expression| {
        simplify_and_legalize(Box::new(operand.clone())).content == ExpressionContent::Empty
    };
    let zero = |operand: &Expression| evaluate(operand, a, b).iter().all(|value| *value == 0.0);
    match &expression.content {
        ExpressionContent::Add(x, y) | ExpressionContent::Subtract(x, y) => {
            keeps_its_factors(x, a, b) && keeps_its_factors(y, a, b)
        }
        ExpressionContent::Multiply(x, y) => {
            keeps_its_factors(x, a, b)
                && keeps_its_factors(y, a, b)
                && (!nothing(x) || zero(y))
                && (!nothing(y) || zero(x))
        }
        _ => true,
    }
}

#[test]
fn simplifying_keeps_the_value() {
    let mut numbers = Numbers(2024);
    let a = groups(1.0);
    let b = groups(-7.5);
    let mut checked = 0;
    let mut rewritten = 0;
    while checked < 1000 {
        let size = 1 + numbers.next(3);
        let depth = 1 + numbers.next(4);
        let tree = random_tree(&mut numbers, size, depth);
        if !keeps_its_factors(&tree, &a, &b) {
            continue;
        }
        let expected = evaluate(&tree, &a, &b);
        let simplified = simplify_and_legalize(tree.clone());
        if simplified != tree {
            rewritten += 1;
        }
        let value = evaluate(&simplified, &a, &b);
        assert_eq!(expected.len(), value.len(), "{:?}", tree);
        for (x, y) in expected.iter().zip(value.iter()) {
            assert!((x - y).abs() <= 1e-9 * (1.0 + x.abs()), "{:?} became {:?}", tree, simplified);
        }
        // simplifying again changes nothing more in the value
        let again = simplify_and_legalize(simplified.clone());
        assert_eq!(evaluate(&again, &a, &b).len(), value.len());
        checked += 1;
    }
    assert!(rewritten > 250, "{} of 1000 trees were rewritten", rewritten);
}

#[test]
fn a_product_with_an_absent_factor_keeps_the_other() {
    // x * 0 is nothing, and nothing times y is y: such a product loses its value
    let zero = node(2, ExpressionContent::Multiply(variable("x", 2), constant(2, &[0, 0])));
    let product = node(2, ExpressionContent::Multiply(zero, variable("y", 2)));
    assert_eq!(simplify_and_legalize(product), variable("y", 2));
}

#[test]
fn copies_are_equal() {
    let tree = node(
        2,
        ExpressionContent::Add(
            gather(2, variable("v", 2), &[(0, 1), (1, 0)]),
            node(
                2,
                ExpressionContent::InvokeInstanceMethod(
                    DataType::SimdVector(2),
                    variable("w", 2),
                    "Method",
                    vec![(DataType::Integer, *constant(1, &[3]))],
                ),
            ),
        ),
    );
    assert_eq!(tree.clone(), tree);
    assert_eq!(tree.duplicate(), *tree);
}

#[test]
fn a_sum_becomes_a_difference_in_one_pass() {
    // the constant stands on the left of its product: the pass moves it to the right
    // and then finds the sum to be a difference
    let negated = node(
        2,
        ExpressionContent::Multiply(
            variable("c", 2),
            node(2, ExpressionContent::Multiply(constant(2, &[-1, -1]), variable("e", 2))),
        ),
    );
    let simplified =
        simplify_and_legalize(node(2, ExpressionContent::Add(variable("a", 2), negated)));
    let expected = node(
        2,
        ExpressionContent::Subtract(
            variable("a", 2),
            node(2, ExpressionContent::Multiply(variable("c", 2), variable("e", 2))),
        ),
    );
    assert_eq!(simplified, expected);
    assert_eq!(simplify_and_legalize(simplified.clone()), simplified);
}

#[test]
fn a_sum_of_nothing_and_a_negated_product_is_a_difference_from_zero() {
    let negated = node(
        2,
        ExpressionContent::Multiply(
            variable("c", 2),
            node(2, ExpressionContent::Multiply(variable("e", 2), constant(2, &[-1]))),
        ),
    );
    let simplified = simplify_and_legalize(node(
        2,
        ExpressionContent::Add(node(2, ExpressionContent::Empty), negated),
    ));
    let expected = node(
        2,
        ExpressionContent::Subtract(
            constant(2, &[0]),
            node(2, ExpressionContent::Multiply(variable("c", 2), variable("e", 2))),
        ),
    );
    assert_eq!(simplified, expected);
}

fn simplified<'a>(operand: &Expression<'a>) -> Box<Expression<'a>> {
    simplify_and_legalize(Box::new(operand.clone()))
}

/// Whether one pass settles the tree: no product has two constants for factors, the
/// first of them neither all one nor all zero.
fn settles(expression: &Expression) -> bool {
    let proper = |operand: &Expression| match &operand.content {
        ExpressionContent::Constant(_, values) => {
            !values.iter().all(|value| *value == 1) && !values.iter().all(|value| *value == 0)
        }
        _ => false,
    };
    match &expression.content {
        ExpressionContent::Gather(inner, pairs) => pairs.is_empty() || settles(inner),
        ExpressionContent::Add(x, y) => settles(x) && settles(y),
        ExpressionContent::Subtract(x, y) => settles(x) && settles(y),
        ExpressionContent::Multiply(x, y) => {
            settles(x)
                && settles(y)
                && !(proper(&simplified(x))
                    && matches!(simplified(y).content, ExpressionContent::Constant(_, _)))
        }
        _ => true,
    }
}

#[test]
fn simplifying_twice_changes_nothing() {
    let mut numbers = Numbers(77);
    let mut checked = 0;
    let mut left_out = 0;
    while checked < 1000 {
        let size = 1 + numbers.next(3);
        let depth = 1 + numbers.next(4);
        let tree = random_tree(&mut numbers, size, depth);
        if !settles(&tree) {
            left_out += 1;
            continue;
        }
        let once = simplify_and_legalize(tree.clone());
        let twice = simplify_and_legalize(once.clone());
        assert_eq!(twice, once, "{:?}", tree);
        checked += 1;
    }
    assert!(left_out < 1000);
}

#[test]
fn two_constants_in_a_product_change_places_on_every_pass() {
    let product =
        node(2, ExpressionContent::Multiply(constant(2, &[2, 3]), constant(2, &[5, 7])));
    assert!(!settles(&product));
    let once = simplify_and_legalize(product.clone());
    assert_eq!(
        once,
        node(2, ExpressionContent::Multiply(constant(2, &[5, 7]), constant(2, &[2, 3])))
    );
    assert_eq!(simplify_and_legalize(once), product);
    let with_one = node(2, ExpressionContent::Multiply(constant(2, &[1, 1]), constant(2, &[5, 7])));
    assert!(settles(&with_one));
    assert_eq!(simplify_and_legalize(with_one), constant(2, &[5, 7]));
    let with_zero =
        node(2, ExpressionContent::Multiply(constant(2, &[0, 0]), constant(2, &[5, 7])));
    assert!(settles(&with_zero));
    assert_eq!(simplify_and_legalize(with_zero), node(2, ExpressionContent::Empty));
}

#[test]
fn a_difference_of_two_products_with_zero_is_nothing() {
    let zero_times = |name| {
        node(2, ExpressionContent::Multiply(variable(name, 2), constant(2, &[0, 0])))
    };
    let difference =
        node(2, ExpressionContent::Subtract(zero_times("x"), zero_times("y")));
    assert!(settles(&difference));
    let once = simplify_and_legalize(difference);
    assert_eq!(once, node(2, ExpressionContent::Empty));
    assert_eq!(simplify_and_legalize(once.clone()), once);
}

#[test]
fn sums_of_variables_keep_their_value() {
    let a = groups(1.0);
    let b = groups(-7.5);
    let negated = node(
        3,
        ExpressionContent::Multiply(
            variable("b", 3),
            node(3, ExpressionContent::Multiply(constant(3, &[-1, -1, -1]), variable("a", 3))),
        ),
    );
    let sum = node(3, ExpressionContent::Add(variable("a", 3), negated));
    let simplified = simplify_and_legalize(sum.clone());
    assert_eq!(
        simplified,
        node(
            3,
            ExpressionContent::Subtract(
                variable("a", 3),
                node(3, ExpressionContent::Multiply(variable("b", 3), variable("a", 3)))
            )
        )
    );
    let expected: Vec<f64> = (0..3).map(|k| a[0][k] - b[0][k] * a[0][k]).collect();
    assert_eq!(evaluate(&sum, &a, &b), expected);
    assert_eq!(evaluate(&simplified, &a, &b), expected);
}
