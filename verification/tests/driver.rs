use geometric_algebra::algebra::{BasisElement, GeometricAlgebra};
use geometric_algebra::ast::{AstNode, DataType, Expression, ExpressionContent, Parameter};
use geometric_algebra::class::{MultiVectorClass, MultiVectorClassRegistry};
use geometric_algebra::driver::{find_operation, generate, position_of_name, Generated};
use std::collections::HashMap;

type Groups = Vec<Vec<f64>>;

#[derive(Clone, Debug, PartialEq)]
enum Value {
    Multi(Groups),
    Lanes(Vec<f64>),
    Integer(i64),
    Truth(bool),
}

fn lanes(value: Value) -> Vec<f64> {
    match value {
        Value::Lanes(lanes) => lanes,
        Value::Integer(value) => vec![value as f64],
        other => panic!("expected lanes, found {:?}", other),
    }
}

fn multi(value: Value) -> Groups {
    match value {
        Value::Multi(groups) => groups,
        other => panic!("expected a multivector, found {:?}", other),
    }
}

fn integer(value: Value) -> i64 {
    match value {
        Value::Integer(value) => value,
        other => panic!("expected an integer, found {:?}", other),
    }
}

fn spread(mut values: Vec<f64>, size: usize) -> Vec<f64> {
    if values.len() == 1 && size > 1 {
        values = vec![values[0]; size];
    }
    assert_eq!(values.len(), size);
    values
}

fn class_of<'a>(data_type: &DataType<'a>) -> &'a MultiVectorClass {
    match data_type {
        DataType::MultiVector(class) => class,
        other => panic!("expected a class, found {:?}", other),
    }
}

/// Runs the generated operations on numbers.
struct Machine<'g, 'a> {
    generated: &'g Generated<'a>,
}

impl<'g, 'a> Machine<'g, 'a> {
    /// The operation of a class, with another class where `other` names one.
    fn operation(&self, class: &MultiVectorClass, other: Option<&MultiVectorClass>, name: &str) -> Option<&'g AstNode<'a>> {
        let own = self
            .generated
            .classes
            .iter()
            .find(|operations| class_of(&operations.parameter.data_type) == class)?;
        match other {
            Some(other) => {
                let pair =
                    own.pairs.iter().find(|pair| class_of(&pair.parameter.data_type) == other)?;
                find_operation(&pair.operations, name)
            }
            None => find_operation(&own.derived, name).or(find_operation(&own.single, name)),
        }
    }

    fn compound(&self, a: &MultiVectorClass, b: Option<&MultiVectorClass>, name: &str) -> Option<&'g AstNode<'a>> {
        self.generated.compound.iter().map(|(_, node)| node).find(|node| match node {
            AstNode::TraitImplementation { result, parameters, .. } => {
                result.name == name
                    && class_of(&parameters[0].data_type) == a
                    && match (b, &parameters[1].data_type) {
                        (Some(b), DataType::MultiVector(class)) => *class == b,
                        (None, DataType::Integer) => true,
                        _ => false,
                    }
            }
            _ => false,
        })
    }

    fn evaluate(&self, expression: &Expression, variables: &HashMap<&str, Value>) -> Value {
        let binary = |a: &Expression, b: &Expression, operation: fn(f64, f64) -> f64| {
            let left = spread(lanes(self.evaluate(a, variables)), expression.size);
            let right = spread(lanes(self.evaluate(b, variables)), expression.size);
            Value::Lanes(left.iter().zip(right.iter()).map(|(x, y)| operation(*x, *y)).collect())
        };
        match &expression.content {
            ExpressionContent::Variable(name) => variables[name].clone(),
            ExpressionContent::Gather(inner, pairs) => {
                let groups = multi(self.evaluate(inner, variables));
                let gathered = pairs.iter().map(|(group, lane)| groups[*group][*lane]).collect();
                Value::Lanes(spread(gathered, expression.size))
            }
            ExpressionContent::Access(inner, group) => {
                Value::Lanes(multi(self.evaluate(inner, variables))[*group].clone())
            }
            ExpressionContent::Swizzle(inner, order) => {
                let values = lanes(self.evaluate(inner, variables));
                Value::Lanes(order.iter().map(|lane| values[*lane]).collect())
            }
            ExpressionContent::Constant(DataType::Integer, values) => {
                Value::Integer(values[0] as i64)
            }
            ExpressionContent::Constant(_, values) => Value::Lanes(spread(
                values.iter().map(|value| *value as f64).collect(),
                expression.size,
            )),
            ExpressionContent::SquareRoot(inner) => Value::Lanes(
                lanes(self.evaluate(inner, variables)).iter().map(|value| value.sqrt()).collect(),
            ),
            ExpressionContent::Add(a, b) => binary(a, b, |x, y| x + y),
            ExpressionContent::Subtract(a, b) => binary(a, b, |x, y| x - y),
            ExpressionContent::Multiply(a, b) => binary(a, b, |x, y| x * y),
            ExpressionContent::Divide(a, b) => binary(a, b, |x, y| x / y),
            ExpressionContent::LessThan(a, b) => Value::Truth(
                integer(self.evaluate(a, variables)) < integer(self.evaluate(b, variables)),
            ),
            ExpressionContent::Equal(a, b) => Value::Truth(
                integer(self.evaluate(a, variables)) == integer(self.evaluate(b, variables)),
            ),
            ExpressionContent::LogicAnd(a, b) => Value::Integer(
                integer(self.evaluate(a, variables)) & integer(self.evaluate(b, variables)),
            ),
            ExpressionContent::BitShiftRight(a, b) => Value::Integer(
                integer(self.evaluate(a, variables)) >> integer(self.evaluate(b, variables)),
            ),
            ExpressionContent::Select(condition, then, otherwise) => {
                match self.evaluate(condition, variables) {
                    Value::Truth(true) => self.evaluate(then, variables),
                    Value::Truth(false) => self.evaluate(otherwise, variables),
                    other => panic!("expected a truth value, found {:?}", other),
                }
            }
            ExpressionContent::InvokeClassMethod(class, "Constructor", arguments) => Value::Multi(
                arguments
                    .iter()
                    .zip(class.grouped_basis.iter())
                    .map(|((_, argument), group)| {
                        spread(lanes(self.evaluate(argument, variables)), group.len())
                    })
                    .collect(),
            ),
            ExpressionContent::InvokeClassMethod(class, name, arguments) => {
                assert!(arguments.is_empty());
                self.run(self.operation(class, None, name).expect("no such operation"), vec![])
            }
            ExpressionContent::InvokeInstanceMethod(DataType::Integer, receiver, "Abs", _) => {
                Value::Integer(integer(self.evaluate(receiver, variables)).abs())
            }
            ExpressionContent::InvokeInstanceMethod(receiver_type, receiver, name, arguments) => {
                let class = class_of(receiver_type);
                let mut values = vec![self.evaluate(receiver, variables)];
                let other = arguments.first().map(|(data_type, _)| class_of(data_type));
                for (_, argument) in arguments.iter() {
                    values.push(self.evaluate(argument, variables));
                }
                self.run(self.operation(class, other, name).expect("no such operation"), values)
            }
            ExpressionContent::Conversion(source, destination, inner) => {
                let value = self.evaluate(inner, variables);
                self.run(self.operation(source, Some(destination), "Into").unwrap(), vec![value])
            }
            other => panic!("cannot evaluate {:?}", other),
        }
    }

    fn execute(&self, statements: &[AstNode], variables: &mut HashMap<&'static str, Value>) -> Option<Value> {
        for statement in statements {
            match statement {
                AstNode::ReturnStatement { expression } => {
                    return Some(self.evaluate(expression, variables));
                }
                AstNode::VariableAssignment { name, data_type, expression } => {
                    assert_eq!(data_type.is_some(), !variables.contains_key(name));
                    let value = self.evaluate(expression, variables);
                    variables.insert(name, value);
                }
                AstNode::IfThenBlock { condition, body } => {
                    if self.evaluate(condition, variables) == Value::Truth(true) {
                        if let Some(value) = self.execute(body, variables) {
                            return Some(value);
                        }
                    }
                }
                AstNode::WhileLoopBlock { condition, body } => {
                    while self.evaluate(condition, variables) == Value::Truth(true) {
                        if let Some(value) = self.execute(body, variables) {
                            return Some(value);
                        }
                    }
                }
                other => panic!("cannot execute {:?}", other),
            }
        }
        None
    }

    fn run(&self, node: &AstNode, arguments: Vec<Value>) -> Value {
        match node {
            AstNode::TraitImplementation { parameters, body, .. } => {
                assert_eq!(parameters.len(), arguments.len());
                let mut variables: HashMap<&'static str, Value> =
                    parameters.iter().map(|parameter| parameter.name).zip(arguments).collect();
                self.execute(body, &mut variables).expect("nothing was returned")
            }
            other => panic!("expected an operation, found {:?}", other),
        }
    }
}

fn class(name: &str, groups: &[&[&str]], algebra: &GeometricAlgebra) -> MultiVectorClass {
    MultiVectorClass {
        class_name: name.to_string(),
        grouped_basis: groups
            .iter()
            .map(|group| {
                group
                    .iter()
                    .map(|element| BasisElement::parse(element, algebra).unwrap())
                    .collect()
            })
            .collect(),
    }
}

fn registry(classes: Vec<MultiVectorClass>) -> MultiVectorClassRegistry {
    let mut registry = MultiVectorClassRegistry::default();
    for class in classes {
        registry.register(class);
    }
    registry
}

fn find<'a>(registry: &'a MultiVectorClassRegistry, name: &str) -> &'a MultiVectorClass {
    registry.classes.iter().find(|class| class.class_name == name).unwrap()
}

fn names(list: &[(&'static str, AstNode)]) -> Vec<&'static str> {
    list.iter().map(|(name, _)| *name).collect()
}

fn present(list: &[(&'static str, AstNode)]) -> Vec<&'static str> {
    list.iter().filter(|(_, node)| *node != AstNode::Empty).map(|(name, _)| *name).collect()
}

fn result_class<'a>(node: &AstNode<'a>) -> &'a MultiVectorClass {
    match node {
        AstNode::TraitImplementation { result, .. } => class_of(&result.data_type),
        other => panic!("expected an operation, found {:?}", other),
    }
}

fn euclidean_2d(algebra: &GeometricAlgebra) -> MultiVectorClassRegistry {
    registry(vec![
        class("Scalar", &[&["1"]], algebra),
        class("Vector", &[&["e0", "e1"]], algebra),
        class("Rotor", &[&["1", "e01"]], algebra),
        class("MultiVector", &[&["1"], &["e0", "e1"], &["e01"]], algebra),
    ])
}

fn projective_3d(algebra: &GeometricAlgebra) -> MultiVectorClassRegistry {
    registry(vec![
        class("Scalar", &[&["1"]], algebra),
        class("Rotor", &[&["1", "e23", "-e13", "e12"]], algebra),
        class("Point", &[&["e123", "-e023", "e013", "-e012"]], algebra),
        class("Plane", &[&["e0", "e1", "e2", "e3"]], algebra),
        class("Translator", &[&["1", "e01", "e02", "e03"]], algebra),
        class("Motor", &[&["1", "e23", "-e13", "e12"], &["e0123", "e01", "e02", "e03"]], algebra),
        class(
            "PointAndPlane",
            &[&["e123", "-e023", "e013", "-e012"], &["e0", "e1", "e2", "e3"]],
            algebra,
        ),
    ])
}

#[test]
fn operations_come_in_order() {
    let squares = [1isize, 1];
    let algebra = GeometricAlgebra { generator_squares: &squares };
    let registry = euclidean_2d(&algebra);
    let generated = generate(&algebra, &registry);
    assert_eq!(generated.definitions.len(), 5);
    assert_eq!(generated.definitions[0], AstNode::Preamble);
    for (class, definition) in registry.classes.iter().zip(generated.definitions[1..].iter()) {
        assert_eq!(*definition, AstNode::ClassDefinition { class });
    }
    assert_eq!(generated.classes.len(), 4);
    for (a, operations) in generated.classes.iter().enumerate() {
        assert_eq!(
            operations.parameter,
            Parameter { name: "self", data_type: DataType::MultiVector(&registry.classes[a]) }
        );
        assert_eq!(
            names(&operations.single),
            vec!["Zero", "One", "Neg", "Automorphism", "Reversal", "Conjugation", "Dual"]
        );
        assert_eq!(operations.pairs.len(), 4);
        for (b, pair) in operations.pairs.iter().enumerate() {
            assert_eq!(
                pair.parameter,
                Parameter { name: "other", data_type: DataType::MultiVector(&registry.classes[b]) }
            );
            let mut expected = vec![
                "Add",
                "Sub",
                "GeometricProduct",
                "RegressiveProduct",
                "OuterProduct",
                "InnerProduct",
                "LeftContraction",
                "RightContraction",
                "ScalarProduct",
            ];
            if a != b {
                expected.insert(0, "Into");
            }
            assert_eq!(names(&pair.operations), expected);
        }
    }
    // the order of emission: definitions, then class by class, then the compounds
    let order = generated.emission_order();
    let mut expected: Vec<&AstNode> = generated.definitions.iter().collect();
    for operations in generated.classes.iter() {
        expected.extend(operations.single.iter().map(|(_, node)| node));
        for pair in operations.pairs.iter() {
            expected.extend(pair.operations.iter().map(|(_, node)| node));
        }
        expected.extend(operations.derived.iter().map(|(_, node)| node));
    }
    expected.extend(generated.compound.iter().map(|(_, node)| node));
    assert_eq!(order.len(), expected.len());
    for (left, right) in order.iter().zip(expected.iter()) {
        assert!(std::ptr::eq(*left, *right));
    }
}

#[test]
fn euclidean_2d_operations() {
    let squares = [1isize, 1];
    let algebra = GeometricAlgebra { generator_squares: &squares };
    let registry = euclidean_2d(&algebra);
    let generated = generate(&algebra, &registry);
    let vector = &generated.classes[1];
    // a vector has all involutions but the dual, which would be a vector again
    assert_eq!(
        present(&vector.single),
        vec!["Zero", "One", "Neg", "Automorphism", "Reversal", "Conjugation", "Dual"]
    );
    assert_eq!(result_class(find_operation(&vector.single, "Dual").unwrap()).class_name, "Vector");
    // vector with vector: the geometric product is a rotor, the outer product has no class
    assert_eq!(
        present(&vector.pairs[1].operations),
        vec![
            "Add",
            "Sub",
            "GeometricProduct",
            "RegressiveProduct",
            "InnerProduct",
            "LeftContraction",
            "RightContraction",
            "ScalarProduct"
        ]
    );
    assert_eq!(names(&vector.derived), vec!["SquaredMagnitude", "Magnitude", "Scale", "Signum", "Inverse"]);
    let machine = Machine { generated: &generated };
    let vector = find(&registry, "Vector");
    let a = Value::Multi(vec![vec![3.0, 4.0]]);
    let squared = machine.operation(vector, None, "SquaredMagnitude").unwrap();
    assert_eq!(result_class(squared).class_name, "Scalar");
    assert_eq!(machine.run(squared, vec![a.clone()]), Value::Multi(vec![vec![25.0]]));
    let magnitude = machine.operation(vector, None, "Magnitude").unwrap();
    assert_eq!(machine.run(magnitude, vec![a.clone()]), Value::Multi(vec![vec![5.0]]));
    let signum = machine.operation(vector, None, "Signum").unwrap();
    assert_eq!(machine.run(signum, vec![a.clone()]), Value::Multi(vec![vec![3.0 * (1.0 / 5.0), 4.0 * (1.0 / 5.0)]]));
    let inverse = machine.operation(vector, None, "Inverse").unwrap();
    assert_eq!(
        machine.run(inverse, vec![a.clone()]),
        Value::Multi(vec![vec![3.0 * (1.0 / 25.0), 4.0 * (1.0 / 25.0)]])
    );
    let scale = machine.operation(vector, None, "Scale").unwrap();
    assert_eq!(
        machine.run(scale, vec![a.clone(), Value::Lanes(vec![2.0])]),
        Value::Multi(vec![vec![6.0, 8.0]])
    );
    // the quotient of a vector by itself is one
    let quotient = machine.compound(vector, Some(vector), "GeometricQuotient").unwrap();
    assert_eq!(result_class(quotient).class_name, "Rotor");
    let one = multi(machine.run(quotient, vec![a.clone(), a.clone()]));
    assert!((one[0][0] - 1.0).abs() < 1e-12 && one[0][1].abs() < 1e-12);
}

#[test]
fn scale_comes_with_the_product_with_the_scalar_class() {
    for squares in [vec![1isize, 1], vec![0, 1, 1, 1]] {
        let algebra = GeometricAlgebra { generator_squares: &squares };
        let registry =
            if squares.len() == 2 { euclidean_2d(&algebra) } else { projective_3d(&algebra) };
        let generated = generate(&algebra, &registry);
        let scalar = position_of_name(&registry, "Scalar").unwrap();
        for operations in generated.classes.iter() {
            let product = find_operation(&operations.pairs[scalar].operations, "GeometricProduct");
            let scale = find_operation(&operations.derived, "Scale");
            assert_eq!(product.is_some(), scale.is_some());
            assert!(product.is_some());
        }
    }
    // without a scalar class nothing is scaled
    let squares = [1isize, 1];
    let algebra = GeometricAlgebra { generator_squares: &squares };
    let registry = registry(vec![
        class("Vector", &[&["e0", "e1"]], &algebra),
        class("Rotor", &[&["1", "e01"]], &algebra),
    ]);
    let generated = generate(&algebra, &registry);
    for operations in generated.classes.iter() {
        assert!(find_operation(&operations.derived, "Scale").is_none());
        assert!(names(&operations.derived).iter().all(|name| !["Scale", "Signum", "Inverse"].contains(name)));
    }
    // a class with the scalar in another layout is no scalar class
    let registry = registry_with_negative_scalar(&algebra);
    let generated = generate(&algebra, &registry);
    assert!(find_operation(&generated.classes[1].pairs[0].operations, "GeometricProduct").is_some());
    assert!(find_operation(&generated.classes[1].derived, "Scale").is_none());
}

fn registry_with_negative_scalar(algebra: &GeometricAlgebra) -> MultiVectorClassRegistry {
    registry(vec![class("Scalar", &[&["-1"]], algebra), class("Vector", &[&["e0", "e1"]], algebra)])
}

#[test]
fn powi_edge_cases() {
    let squares = [1isize, 1];
    let algebra = GeometricAlgebra { generator_squares: &squares };
    let registry = euclidean_2d(&algebra);
    let generated = generate(&algebra, &registry);
    let machine = Machine { generated: &generated };
    let rotor = find(&registry, "Rotor");
    let powi = machine.compound(rotor, None, "Powi").unwrap();
    assert_eq!(result_class(powi), rotor);
    match powi {
        AstNode::TraitImplementation { parameters, body, .. } => {
            assert_eq!(parameters[1], Parameter { name: "exponent", data_type: DataType::Integer });
            assert_eq!(body.len(), 6);
            assert!(matches!(body[0], AstNode::IfThenBlock { .. }));
            assert!(matches!(body[1], AstNode::VariableAssignment { name: "x", data_type: Some(_), .. }));
            assert!(matches!(body[2], AstNode::VariableAssignment { name: "y", data_type: Some(_), .. }));
            assert!(matches!(
                body[3],
                AstNode::VariableAssignment { name: "n", data_type: Some(DataType::Integer), .. }
            ));
            match &body[4] {
                AstNode::WhileLoopBlock { body, .. } => {
                    assert_eq!(body.len(), 3);
                    assert!(matches!(body[0], AstNode::IfThenBlock { .. }));
                    assert!(matches!(body[1], AstNode::VariableAssignment { name: "x", data_type: None, .. }));
                    assert!(matches!(body[2], AstNode::VariableAssignment { name: "n", data_type: None, .. }));
                }
                other => panic!("expected a loop, found {:?}", other),
            }
            assert!(matches!(body[5], AstNode::ReturnStatement { .. }));
        }
        _ => panic!(),
    }
    let a = Value::Multi(vec![vec![0.6, 0.8]]);
    let power = |exponent: i64| multi(machine.run(powi, vec![a.clone(), Value::Integer(exponent)]));
    let product = machine.operation(rotor, Some(rotor), "GeometricProduct").unwrap();
    let inverse = machine.operation(rotor, None, "Inverse").unwrap();
    let times = |x: Groups, y: Groups| multi(machine.run(product, vec![Value::Multi(x), Value::Multi(y)]));
    let close = |x: Groups, y: Groups| {
        for (x, y) in x.iter().flatten().zip(y.iter().flatten()) {
            assert!((x - y).abs() < 1e-12, "{} != {}", x, y);
        }
    };
    assert_eq!(power(0), vec![vec![1.0, 0.0]]);
    assert_eq!(power(1), multi(a.clone()));
    assert_eq!(power(-1), multi(machine.run(inverse, vec![a.clone()])));
    assert_eq!(power(2), times(multi(a.clone()), multi(a.clone())));
    // a rotation by an angle, five times, is the rotation by five times the angle
    let angle = (0.8f64).atan2(0.6);
    close(power(5), vec![vec![(5.0 * angle).cos(), (5.0 * angle).sin()]]);
    close(power(-3), vec![vec![(3.0 * angle).cos(), -(3.0 * angle).sin()]]);
    // only a class whose square is the class again has integer powers
    assert!(machine.compound(find(&registry, "Vector"), None, "Powi").is_none());
    assert!(machine.compound(find(&registry, "MultiVector"), None, "Powi").is_some());
}

#[test]
fn projective_3d_motor() {
    let squares = [0isize, 1, 1, 1];
    let algebra = GeometricAlgebra { generator_squares: &squares };
    let registry = projective_3d(&algebra);
    let generated = generate(&algebra, &registry);
    let machine = Machine { generated: &generated };
    let motor = find(&registry, "Motor");
    let point = find(&registry, "Point");
    let point_and_plane = find(&registry, "PointAndPlane");
    assert_eq!(motor.flat_basis().len(), 8);
    // motor times point overshoots into the class of points and planes
    let product = machine.operation(motor, Some(point), "GeometricProduct").unwrap();
    assert_eq!(result_class(product), point_and_plane);
    let transformation = machine.compound(motor, Some(point), "Transformation").unwrap();
    assert_eq!(result_class(transformation), point);
    match transformation {
        AstNode::TraitImplementation { body, .. } => match &body[0] {
            AstNode::ReturnStatement { expression } => match &expression.content {
                ExpressionContent::Conversion(source, destination, _) => {
                    assert_eq!(*source, point_and_plane);
                    assert_eq!(*destination, point);
                }
                other => panic!("expected a conversion, found {:?}", other),
            },
            _ => panic!(),
        },
        _ => panic!(),
    }
    // the identity motor leaves every point where it is
    let identity = Value::Multi(vec![vec![1.0, 0.0, 0.0, 0.0], vec![0.0, 0.0, 0.0, 0.0]]);
    let p = vec![vec![1.0, 2.5, -3.0, 0.125]];
    assert_eq!(machine.run(transformation, vec![identity, Value::Multi(p.clone())]), Value::Multi(p));
    // a translator moves a point: with e0i as the ideal directions
    let translator = find(&registry, "Translator");
    let translation = machine.compound(translator, Some(point), "Transformation").unwrap();
    assert_eq!(result_class(translation), point);
    let moved = multi(machine.run(
        translation,
        vec![
            Value::Multi(vec![vec![1.0, 0.5, 0.0, 0.0]]),
            Value::Multi(vec![vec![1.0, 0.0, 0.0, 0.0]]),
        ],
    ));
    assert_eq!(moved[0][0], 1.0);
    assert_eq!(moved[0][1].abs(), 1.0);
    assert_eq!(&moved[0][2..], &[0.0, 0.0]);
    // a transformation that stays in its class needs no conversion
    let rotor = find(&registry, "Rotor");
    let turn = machine.compound(rotor, Some(rotor), "Transformation").unwrap();
    match turn {
        AstNode::TraitImplementation { body, .. } => match &body[0] {
            AstNode::ReturnStatement { expression } => {
                assert!(matches!(expression.content, ExpressionContent::InvokeInstanceMethod(..)));
            }
            _ => panic!(),
        },
        _ => panic!(),
    }
}

#[test]
fn magnitude_of_a_point() {
    let squares = [0isize, 1, 1];
    let algebra = GeometricAlgebra { generator_squares: &squares };
    let registry = registry(vec![
        class("Scalar", &[&["1"]], &algebra),
        class("Point", &[&["e12", "-e02", "e01"]], &algebra),
    ]);
    let generated = generate(&algebra, &registry);
    let machine = Machine { generated: &generated };
    let point = find(&registry, "Point");
    let magnitude = machine.operation(point, None, "Magnitude").unwrap();
    let unit = Value::Multi(vec![vec![1.0, 7.0, -2.0]]);
    assert_eq!(machine.run(magnitude, vec![unit]), Value::Multi(vec![vec![1.0]]));
    let other = Value::Multi(vec![vec![-3.0, 7.0, -2.0]]);
    assert_eq!(machine.run(magnitude, vec![other]), Value::Multi(vec![vec![3.0]]));
}

#[test]
fn lookups_by_name() {
    let squares = [1isize, 1];
    let algebra = GeometricAlgebra { generator_squares: &squares };
    let registry = euclidean_2d(&algebra);
    assert_eq!(position_of_name(&registry, "Scalar"), Some(0));
    assert_eq!(position_of_name(&registry, "MultiVector"), Some(3));
    assert_eq!(position_of_name(&registry, "Motor"), None);
    let list: Vec<(&'static str, AstNode)> = vec![
        ("A", AstNode::Preamble),
        ("B", AstNode::Empty),
        ("A", AstNode::ClassDefinition { class: &registry.classes[0] }),
        ("A", AstNode::Empty),
    ];
    assert_eq!(
        find_operation(&list, "A"),
        Some(&AstNode::ClassDefinition { class: &registry.classes[0] })
    );
    assert_eq!(find_operation(&list, "B"), None);
    assert_eq!(find_operation(&list, "C"), None);
}
