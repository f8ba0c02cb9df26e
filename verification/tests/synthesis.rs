use geometric_algebra::algebra::{BasisElement, GeometricAlgebra};
use geometric_algebra::ast::{AstNode, DataType, Expression, ExpressionContent, Parameter};
use geometric_algebra::class::{MultiVectorClass, MultiVectorClassRegistry};
use geometric_algebra::involution::Involution;
use geometric_algebra::product::Product;

type Groups = Vec<Vec<f64>>;

#[derive(Clone, Debug, PartialEq)]
enum Value {
    Multi(Groups),
    Lanes(Vec<f64>),
}

fn lanes(value: Value) -> Vec<f64> {
    match value {
        Value::Lanes(lanes) => lanes,
        other => panic!("expected lanes, found {:?}", other),
    }
}

fn multi(value: Value) -> Groups {
    match value {
        Value::Multi(groups) => groups,
        other => panic!("expected a multivector, found {:?}", other),
    }
}

fn spread(mut values: Vec<f64>, size: usize) -> Vec<f64> {
    if values.len() == 1 && size > 1 {
        values = vec![values[0]; size];
    }
    assert_eq!(values.len(), size);
    values
}

fn evaluate(expression: &Expression, variables: &[(&str, &Groups)]) -> Value {
    let binary = |a: &Expression, b: &Expression, operation: fn(f64, f64) -> f64| {
        let left = spread(lanes(evaluate(a, variables)), expression.size);
        let right = spread(lanes(evaluate(b, variables)), expression.size);
        Value::Lanes(left.iter().zip(right.iter()).map(|(x, y)| operation(*x, *y)).collect())
    };
    match &expression.content {
        ExpressionContent::Variable(name) => Value::Multi(
            (*variables.iter().find(|(key, _)| key == name).expect("unknown variable").1).clone(),
        ),
        ExpressionContent::Gather(inner, pairs) => {
            let groups = multi(evaluate(inner, variables));
            let gathered: Vec<f64> = pairs
                .iter()
                .map(|(group, lane)| groups[*group][*lane])
                .collect();
            Value::Lanes(spread(gathered, expression.size))
        }
        ExpressionContent::Access(inner, group) => {
            let groups = multi(evaluate(inner, variables));
            assert_eq!(groups[*group].len(), expression.size);
            Value::Lanes(groups[*group].clone())
        }
        ExpressionContent::Swizzle(inner, order) => {
            let values = lanes(evaluate(inner, variables));
            Value::Lanes(order.iter().map(|lane| values[*lane]).collect())
        }
        ExpressionContent::Constant(_, values) => Value::Lanes(spread(
            values.iter().map(|value| *value as f64).collect(),
            expression.size,
        )),
        ExpressionContent::Add(a, b) => binary(a, b, |x, y| x + y),
        ExpressionContent::Subtract(a, b) => binary(a, b, |x, y| x - y),
        ExpressionContent::Multiply(a, b) => binary(a, b, |x, y| x * y),
        ExpressionContent::Divide(a, b) => binary(a, b, |x, y| x / y),
        ExpressionContent::InvokeClassMethod(class, "Constructor", arguments) => {
            assert_eq!(arguments.len(), class.grouped_basis.len());
            Value::Multi(
                arguments
                    .iter()
                    .zip(class.grouped_basis.iter())
                    .map(|((data_type, argument), group)| {
                        assert_eq!(*data_type, DataType::SimdVector(group.len()));
                        assert_eq!(argument.size, group.len());
                        spread(lanes(evaluate(argument, variables)), group.len())
                    })
                    .collect(),
            )
        }
        other => panic!("cannot evaluate {:?}", other),
    }
}

/// Runs an operation of one returned expression on the given arguments.
fn apply(node: &AstNode, arguments: &[&Groups]) -> Groups {
    match node {
        AstNode::TraitImplementation { parameters, body, .. } => {
            assert_eq!(parameters.len(), arguments.len());
            assert_eq!(body.len(), 1);
            let variables: Vec<(&str, &Groups)> = parameters
                .iter()
                .zip(arguments.iter())
                .map(|(parameter, argument)| (parameter.name, *argument))
                .collect();
            match &body[0] {
                AstNode::ReturnStatement { expression } => multi(evaluate(expression, &variables)),
                other => panic!("expected a return, found {:?}", other),
            }
        }
        other => panic!("expected an operation, found {:?}", other),
    }
}

fn result_class<'a>(node: &AstNode<'a>) -> &'a MultiVectorClass {
    match node {
        AstNode::TraitImplementation { result, .. } => match result.data_type {
            DataType::MultiVector(class) => class,
            _ => panic!("the result is no multivector"),
        },
        other => panic!("expected an operation, found {:?}", other),
    }
}

fn class(name: &str, groups: &[&[&str]], algebra: &GeometricAlgebra) -> MultiVectorClass {
    MultiVectorClass {
        class_name: name.to_string(),
        grouped_basis: groups
            .iter()
            .map(|group| {
                group
                    .iter()
                    .map(|element| BasisElement::parse(element, algebra).unwrap())
                    .collect()
            })
            .collect(),
    }
}

fn registry(classes: Vec<MultiVectorClass>) -> MultiVectorClassRegistry {
    let mut registry = MultiVectorClassRegistry::default();
    for class in classes {
        registry.register(class);
    }
    registry
}

fn find<'a>(registry: &'a MultiVectorClassRegistry, name: &str) -> &'a MultiVectorClass {
    registry.classes.iter().find(|class| class.class_name == name).unwrap()
}

fn left(class: &MultiVectorClass) -> Parameter {
    Parameter { name: "self", data_type: DataType::MultiVector(class) }
}

fn right(class: &MultiVectorClass) -> Parameter {
    Parameter { name: "other", data_type: DataType::MultiVector(class) }
}

/// Some values for the lanes of a class, all different.
fn sample(class: &MultiVectorClass, seed: f64) -> Groups {
    let mut next = seed;
    class
        .grouped_basis
        .iter()
        .map(|group| {
            group
                .iter()
                .map(|_| {
                    next = next * 1.5 + 0.25;
                    if (next as i64) % 2 == 0 {
                        -next
                    } else {
                        next
                    }
                })
                .collect()
        })
        .collect()
}

/// The coefficients of a multivector by basis index.
fn coefficients(class: &MultiVectorClass, values: &Groups, size: usize) -> Vec<f64> {
    let mut coefficients = vec![0.0; size];
    for (group, lanes) in class.grouped_basis.iter().zip(values.iter()) {
        for (element, value) in group.iter().zip(lanes.iter()) {
            coefficients[element.index as usize] += element.scalar as f64 * value;
        }
    }
    coefficients
}

/// The product of two multivectors, term by term of the table.
fn reference_product(product: &Product, a: &[f64], b: &[f64]) -> Vec<f64> {
    let mut result = vec![0.0; a.len()];
    for term in product.terms.iter() {
        result[term.product.index as usize] += term.product.scalar as f64
            * term.factor_a.scalar as f64
            * a[term.factor_a.index as usize]
            * term.factor_b.scalar as f64
            * b[term.factor_b.index as usize];
    }
    result
}

fn assert_close(left: &[f64], right: &[f64]) {
    assert_eq!(left.len(), right.len());
    for (x, y) in left.iter().zip(right.iter()) {
        assert!((x - y).abs() <= 1e-9 * (1.0 + x.abs().max(y.abs())), "{:?} != {:?}", left, right);
    }
}

fn euclidean_2d<'a>(algebra: &GeometricAlgebra) -> MultiVectorClassRegistry {
    registry(vec![
        class("Scalar", &[&["1"]], algebra),
        class("Vector", &[&["e0", "e1"]], algebra),
        class("Rotor", &[&["1", "e01"]], algebra),
        class("MultiVector", &[&["1"], &["e0", "e1"], &["e01"]], algebra),
    ])
}

#[test]
fn constants_of_a_class() {
    let squares = [1isize, 1];
    let algebra = GeometricAlgebra { generator_squares: &squares };
    let registry = euclidean_2d(&algebra);
    let multi_vector = find(&registry, "MultiVector");
    let zero = multi_vector.constant("Zero");
    assert_eq!(result_class(&zero), multi_vector);
    assert_eq!(apply(&zero, &[]), vec![vec![0.0], vec![0.0, 0.0], vec![0.0]]);
    let one = multi_vector.constant("One");
    assert_eq!(apply(&one, &[]), vec![vec![1.0], vec![0.0, 0.0], vec![0.0]]);
    let rotor = find(&registry, "Rotor");
    let one = rotor.constant("One");
    assert_eq!(apply(&one, &[]), vec![vec![1.0, 0.0]]);
    let expected = AstNode::TraitImplementation {
        result: Parameter { name: "One", data_type: DataType::MultiVector(rotor) },
        parameters: vec![],
        body: vec![AstNode::ReturnStatement {
            expression: Box::new(Expression {
                size: 1,
                content: ExpressionContent::InvokeClassMethod(
                    rotor,
                    "Constructor",
                    vec![(
                        DataType::SimdVector(2),
                        Expression {
                            size: 2,
                            content: ExpressionContent::Constant(DataType::SimdVector(2), vec![1, 0]),
                        },
                    )],
                ),
            }),
        }],
    };
    assert_eq!(one, expected);
    // a constant of equal lanes is one broadcast value
    let zero = rotor.constant("Zero");
    match &zero {
        AstNode::TraitImplementation { body, .. } => match &body[0] {
            AstNode::ReturnStatement { expression } => match &expression.content {
                ExpressionContent::InvokeClassMethod(_, _, arguments) => {
                    assert_eq!(
                        arguments[0].1.content,
                        ExpressionContent::Constant(DataType::SimdVector(2), vec![0])
                    );
                }
                _ => panic!(),
            },
            _ => panic!(),
        },
        _ => panic!(),
    }
}

#[test]
fn euclidean_2d_product_of_vectors() {
    let squares = [1isize, 1];
    let algebra = GeometricAlgebra { generator_squares: &squares };
    let registry = euclidean_2d(&algebra);
    let products = Product::products(&algebra);
    let vector = find(&registry, "Vector");
    let node = MultiVectorClass::product(
        "GeometricProduct",
        &products[0].1,
        &left(vector),
        &right(vector),
        &registry,
    );
    assert_eq!(result_class(&node).class_name, "Rotor");
    let a = vec![vec![2.0, 3.0]];
    let b = vec![vec![5.0, 7.0]];
    let result = apply(&node, &[&a, &b]);
    // scalar part a.e0 b.e0 + a.e1 b.e1, bivector part a.e0 b.e1 - a.e1 b.e0
    assert_eq!(result, vec![vec![2.0 * 5.0 + 3.0 * 7.0, 2.0 * 7.0 - 3.0 * 5.0]]);
    // the scalar product of vectors is their dot product
    let node = MultiVectorClass::product(
        "ScalarProduct",
        &products[6].1,
        &left(vector),
        &right(vector),
        &registry,
    );
    assert_eq!(result_class(&node).class_name, "Scalar");
    assert_eq!(apply(&node, &[&a, &b]), vec![vec![31.0]]);
    assert_eq!(apply(&node, &[&a, &a]), vec![vec![2.0 * 2.0 + 3.0 * 3.0]]);
    // the product of whole multivectors stays in their class
    let multi_vector = find(&registry, "MultiVector");
    let node = MultiVectorClass::product(
        "GeometricProduct",
        &products[0].1,
        &left(multi_vector),
        &right(multi_vector),
        &registry,
    );
    assert_eq!(result_class(&node).class_name, "MultiVector");
}

#[test]
fn product_needs_the_class_of_exactly_its_indices() {
    let squares = [1isize, 1];
    let algebra = GeometricAlgebra { generator_squares: &squares };
    let registry = registry(vec![
        class("Scalar", &[&["1"]], &algebra),
        class("Vector", &[&["e0", "e1"]], &algebra),
        class("MultiVector", &[&["1"], &["e0", "e1"], &["e01"]], &algebra),
    ]);
    let products = Product::products(&algebra);
    let vector = find(&registry, "Vector");
    // the product of two vectors has the indices of 1 and e01, which no class here has
    let node = MultiVectorClass::product(
        "GeometricProduct",
        &products[0].1,
        &left(vector),
        &right(vector),
        &registry,
    );
    assert_eq!(node, AstNode::Empty);
}

#[test]
fn sparse_refusal() {
    let squares = [1isize, 1, 1];
    let algebra = GeometricAlgebra { generator_squares: &squares };
    let registry = registry(vec![class("Vector", &[&["e0", "e1", "e2"]], &algebra)]);
    let products = Product::products(&algebra);
    let vector = find(&registry, "Vector");
    for (name, product) in products.iter() {
        let node =
            MultiVectorClass::product(name, product, &left(vector), &right(vector), &registry);
        assert_eq!(node, AstNode::Empty, "{}", name);
    }
    assert_eq!(products[2].0, "OuterProduct");
}

fn check_products(squares: &[isize], classes: Vec<MultiVectorClass>) {
    let algebra = GeometricAlgebra { generator_squares: squares };
    let registry = registry(classes);
    let products = Product::products(&algebra);
    let size = algebra.basis_size();
    let mut found = 0;
    for class_a in registry.classes.iter() {
        for class_b in registry.classes.iter() {
            for (name, product) in products.iter() {
                let node = MultiVectorClass::product(
                    name,
                    product,
                    &left(class_a),
                    &right(class_b),
                    &registry,
                );
                let a = sample(class_a, 1.0);
                let b = sample(class_b, 2.0);
                let expected = reference_product(
                    product,
                    &coefficients(class_a, &a, size),
                    &coefficients(class_b, &b, size),
                );
                if node == AstNode::Empty {
                    // then no class has exactly the indices that can arise
                    let mut indices: Vec<u16> = product
                        .terms
                        .iter()
                        .filter(|term| {
                            class_a.flat_basis().iter().any(|e| e.index == term.factor_a.index)
                                && class_b.flat_basis().iter().any(|e| e.index == term.factor_b.index)
                        })
                        .map(|term| term.product.index)
                        .collect();
                    indices.sort();
                    indices.dedup();
                    assert!(registry.get(&indices).is_none());
                    continue;
                }
                found += 1;
                // every argument of the constructor is as wide as the group that it fills
                let widths: Vec<usize> = match &node {
                    AstNode::TraitImplementation { body, .. } => match &body[0] {
                        AstNode::ReturnStatement { expression } => match &expression.content {
                            ExpressionContent::InvokeClassMethod(_, "Constructor", arguments) => {
                                arguments.iter().map(|(_, argument)| argument.size).collect()
                            }
                            other => panic!("no constructor: {:?}", other),
                        },
                        other => panic!("no return: {:?}", other),
                    },
                    other => panic!("no operation: {:?}", other),
                };
                let groups: Vec<usize> =
                    result_class(&node).grouped_basis.iter().map(|group| group.len()).collect();
                assert_eq!(widths, groups);
                let result = apply(&node, &[&a, &b]);
                assert_close(&coefficients(result_class(&node), &result, size), &expected);
            }
        }
    }
    assert!(found > 0);
}

#[test]
fn products_compute_what_the_table_says_in_two_dimensions() {
    let squares = [1isize, 1];
    let algebra = GeometricAlgebra { generator_squares: &squares };
    check_products(
        &squares,
        vec![
            class("Scalar", &[&["1"]], &algebra),
            class("Vector", &[&["e0", "e1"]], &algebra),
            class("Rotor", &[&["1", "e01"]], &algebra),
            class("Bivector", &[&["-e01"]], &algebra),
            class("MultiVector", &[&["1", "e01"], &["e1", "-e0"]], &algebra),
        ],
    );
}

#[test]
fn products_compute_what_the_table_says_in_the_plane() {
    let squares = [0isize, 1, 1];
    let algebra = GeometricAlgebra { generator_squares: &squares };
    check_products(
        &squares,
        vec![
            class("Scalar", &[&["1"]], &algebra),
            class("MultiVector", &[&["1", "e12", "e1", "e2"], &["e0", "e012", "e01", "-e02"]], &algebra),
            class("Rotor", &[&["1", "e12"]], &algebra),
            class("Point", &[&["e12", "-e02", "e01"]], &algebra),
            class("IdealPoint", &[&["e01", "-e02"]], &algebra),
            class("Plane", &[&["e0", "e2", "e1"]], &algebra),
            class("Translator", &[&["1", "e01", "-e02"]], &algebra),
            class("Motor", &[&["1", "e12", "e01", "-e02"]], &algebra),
            class("MotorDual", &[&["e012", "e0", "e2", "e1"]], &algebra),
        ],
    );
}

fn projective_3d(algebra: &GeometricAlgebra) -> Vec<MultiVectorClass> {
    vec![
        class("Scalar", &[&["1"]], algebra),
        class(
            "MultiVector",
            &[
                &["1", "e23", "-e13", "e12"],
                &["e0", "-e023", "e013", "-e012"],
                &["e123", "e1", "e2", "e3"],
                &["e0123", "e01", "e02", "e03"],
            ],
            algebra,
        ),
        class("Rotor", &[&["1", "e23", "-e13", "e12"]], algebra),
        class("Point", &[&["e123", "-e023", "e013", "-e012"]], algebra),
        class("IdealPoint", &[&["e01", "e02", "e03"]], algebra),
        class("Plane", &[&["e0", "e1", "e2", "e3"]], algebra),
        class("Line", &[&["e01", "e02", "e03"], &["e23", "-e13", "e12"]], algebra),
        class("Translator", &[&["1", "e01", "e02", "e03"]], algebra),
        class("Motor", &[&["1", "e23", "-e13", "e12"], &["e0123", "e01", "e02", "e03"]], algebra),
        class(
            "PointAndPlane",
            &[&["e123", "-e023", "e013", "-e012"], &["e0", "e1", "e2", "e3"]],
            algebra,
        ),
    ]
}

#[test]
fn products_compute_what_the_table_says_in_space() {
    let squares = [0isize, 1, 1, 1];
    let algebra = GeometricAlgebra { generator_squares: &squares };
    check_products(&squares, projective_3d(&algebra));
}

#[test]
fn products_compute_what_the_table_says_with_odd_layouts() {
    let squares = [-1isize, 1, 0];
    let algebra = GeometricAlgebra { generator_squares: &squares };
    check_products(
        &squares,
        vec![
            class("Scalar", &[&["1"]], &algebra),
            class("Mixed", &[&["e2", "-1"], &["e012"], &["e01", "e1", "-e0"], &["e12", "e02"]], &algebra),
            class("Even", &[&["e12", "1", "-e01"], &["e02"]], &algebra),
            class("Odd", &[&["e0"], &["e1"], &["-e2", "e012"]], &algebra),
            class("Pair", &[&["e0", "e12"]], &algebra),
        ],
    );
}

#[test]
fn involutions_of_classes() {
    let squares = [0isize, 1, 1, 1];
    let algebra = GeometricAlgebra { generator_squares: &squares };
    let registry = registry(projective_3d(&algebra));
    let involutions = Involution::involutions(&algebra);
    let size = algebra.basis_size();
    for class in registry.classes.iter() {
        let values = sample(class, 3.0);
        let before = coefficients(class, &values, size);
        for (name, involution) in involutions.iter() {
            let node =
                MultiVectorClass::involution(name, involution, &left(class), &registry, false);
            if node == AstNode::Empty {
                assert_eq!(*name, "Dual");
                continue;
            }
            let after = coefficients(result_class(&node), &apply(&node, &[&values]), size);
            let mut expected = vec![0.0; size];
            for (argument, image) in involution.terms.iter() {
                expected[image.index as usize] +=
                    argument.scalar as f64 * image.scalar as f64 * before[argument.index as usize];
            }
            assert_close(&after, &expected);
        }
    }
    // the dual of a point is a plane
    let point = find(&registry, "Point");
    let dual =
        MultiVectorClass::involution("Dual", &involutions[4].1, &left(point), &registry, false);
    assert_eq!(result_class(&dual).class_name, "Plane");
    // negation keeps the layout and negates every lane
    let motor = find(&registry, "Motor");
    let negated =
        MultiVectorClass::involution("Neg", &involutions[0].1, &left(motor), &registry, false);
    assert_eq!(result_class(&negated), motor);
    let values = sample(motor, 1.0);
    let expected: Groups =
        values.iter().map(|group| group.iter().map(|value| -value).collect()).collect();
    assert_eq!(apply(&negated, &[&values]), expected);
}

#[test]
fn conversions_between_classes() {
    let squares = [0isize, 1, 1, 1];
    let algebra = GeometricAlgebra { generator_squares: &squares };
    let registry = registry(projective_3d(&algebra));
    let size = algebra.basis_size();
    let point_and_plane = find(&registry, "PointAndPlane");
    let point = find(&registry, "Point");
    let motor = find(&registry, "Motor");
    // a part of a class is taken out of it
    let into = MultiVectorClass::involution(
        "Into",
        &Involution::projection(point),
        &left(point_and_plane),
        &registry,
        true,
    );
    assert_eq!(result_class(&into), point);
    let values = sample(point_and_plane, 1.0);
    assert_eq!(apply(&into, &[&values]), vec![values[0].clone()]);
    // a class does not convert into one that holds more
    let widen = MultiVectorClass::involution(
        "Into",
        &Involution::projection(point_and_plane),
        &left(point),
        &registry,
        true,
    );
    assert_eq!(widen, AstNode::Empty);
    // nor into one that it shares nothing with
    let other = MultiVectorClass::involution(
        "Into",
        &Involution::projection(motor),
        &left(point),
        &registry,
        true,
    );
    assert_eq!(other, AstNode::Empty);
    // conversions honour the signs and the layout of both classes
    let multi_vector = find(&registry, "MultiVector");
    let line = find(&registry, "Line");
    let into = MultiVectorClass::involution(
        "Into",
        &Involution::projection(line),
        &left(multi_vector),
        &registry,
        true,
    );
    let values = sample(multi_vector, 2.0);
    let all = coefficients(multi_vector, &values, size);
    let converted = coefficients(line, &apply(&into, &[&values]), size);
    for index in 0..size {
        let kept = line.flat_basis().iter().any(|element| element.index as usize == index);
        assert_eq!(converted[index], if kept { all[index] } else { 0.0 });
    }
}

#[test]
fn element_wise_sums() {
    let squares = [0isize, 1, 1, 1];
    let algebra = GeometricAlgebra { generator_squares: &squares };
    let registry = registry(projective_3d(&algebra));
    let size = algebra.basis_size();
    let mut found = 0;
    for class_a in registry.classes.iter() {
        for class_b in registry.classes.iter() {
            let a = sample(class_a, 1.0);
            let b = sample(class_b, 5.0);
            let (x, y) = (coefficients(class_a, &a, size), coefficients(class_b, &b, size));
            for (name, sign) in [("Add", 1.0), ("Sub", -1.0)] {
                let node =
                    MultiVectorClass::element_wise(name, &left(class_a), &right(class_b), &registry);
                if node == AstNode::Empty {
                    continue;
                }
                found += 1;
                let class = result_class(&node);
                let mut indices: Vec<u16> = class_a
                    .flat_basis()
                    .iter()
                    .chain(class_b.flat_basis().iter())
                    .map(|element| element.index)
                    .collect();
                indices.sort();
                indices.dedup();
                assert_eq!(class.signature(), indices);
                let result = coefficients(class, &apply(&node, &[&a, &b]), size);
                let expected: Vec<f64> =
                    x.iter().zip(y.iter()).map(|(x, y)| x + sign * y).collect();
                assert_close(&result, &expected);
            }
        }
    }
    assert!(found >= 20);
    // point plus plane is the class of both; point plus line is no class
    let sum = MultiVectorClass::element_wise(
        "Add",
        &left(find(&registry, "Point")),
        &right(find(&registry, "Plane")),
        &registry,
    );
    assert_eq!(result_class(&sum).class_name, "PointAndPlane");
    let none = MultiVectorClass::element_wise(
        "Add",
        &left(find(&registry, "Point")),
        &right(find(&registry, "Line")),
        &registry,
    );
    assert_eq!(none, AstNode::Empty);
}

#[test]
fn element_wise_products_and_quotients() {
    let squares = [1isize, 1];
    let algebra = GeometricAlgebra { generator_squares: &squares };
    let registry = euclidean_2d(&algebra);
    let vector = find(&registry, "Vector");
    let a = vec![vec![6.0, -8.0]];
    let b = vec![vec![3.0, 2.0]];
    let product = MultiVectorClass::element_wise("Mul", &left(vector), &right(vector), &registry);
    assert_eq!(apply(&product, &[&a, &b]), vec![vec![18.0, -16.0]]);
    let quotient = MultiVectorClass::element_wise("Div", &left(vector), &right(vector), &registry);
    assert_eq!(apply(&quotient, &[&a, &b]), vec![vec![2.0, -4.0]]);
}

#[test]
fn element_wise_joins_opposite_signs() {
    let squares = [1isize, 1];
    let algebra = GeometricAlgebra { generator_squares: &squares };
    let registry = registry(vec![
        class("Vector", &[&["e0", "e1"]], &algebra),
        class("Flipped", &[&["-e1", "e0"]], &algebra),
    ]);
    let vector = find(&registry, "Vector");
    let flipped = find(&registry, "Flipped");
    let sum = MultiVectorClass::element_wise("Add", &left(vector), &right(flipped), &registry);
    // both classes have the indices of e0 and e1; the later of them is found
    assert_eq!(result_class(&sum), flipped);
    let a = vec![vec![1.0, 2.0]];
    let b = vec![vec![10.0, 20.0]];
    // a = e0 + 2 e1, b = -10 e1 + 20 e0; the sum is 21 e0 - 8 e1, laid out as (-e1, e0)
    assert_eq!(apply(&sum, &[&a, &b]), vec![vec![8.0, 21.0]]);
}

#[test]
fn projective_2d_point() {
    let squares = [0isize, 1, 1];
    let algebra = GeometricAlgebra { generator_squares: &squares };
    let registry = registry(vec![
        class("Scalar", &[&["1"]], &algebra),
        class("Point", &[&["e12", "-e02", "e01"]], &algebra),
    ]);
    let point = find(&registry, "Point");
    assert_eq!(
        point.grouped_basis,
        vec![vec![
            BasisElement { scalar: 1, index: 6 },
            BasisElement { scalar: -1, index: 5 },
            BasisElement { scalar: 1, index: 3 },
        ]]
    );
    let products = Product::products(&algebra);
    let involutions = Involution::involutions(&algebra);
    let scalar_product = MultiVectorClass::product(
        "ScalarProduct",
        &products[6].1,
        &left(point),
        &right(point),
        &registry,
    );
    assert_eq!(result_class(&scalar_product).class_name, "Scalar");
    let a = vec![vec![2.0, 3.0, 5.0]];
    let b = vec![vec![7.0, 11.0, 13.0]];
    assert_eq!(apply(&scalar_product, &[&a, &b]), vec![vec![-(2.0 * 7.0)]]);
    // the magnitude: the root of the scalar product with the reversal
    let reversal =
        MultiVectorClass::involution("Reversal", &involutions[2].1, &left(point), &registry, false);
    assert_eq!(result_class(&reversal), point);
    let unit = vec![vec![1.0, 0.25, -4.0]];
    let reversed = apply(&reversal, &[&unit]);
    assert_eq!(reversed, vec![vec![-1.0, -0.25, 4.0]]);
    let squared = apply(&scalar_product, &[&unit, &reversed]);
    assert_eq!(squared[0][0].sqrt(), 1.0);
}
