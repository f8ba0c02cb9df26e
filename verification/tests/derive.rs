use geometric_algebra::algebra::{BasisElement, GeometricAlgebra};
use geometric_algebra::ast::{AstNode, DataType, Expression, ExpressionContent, Parameter};
use geometric_algebra::class::MultiVectorClass;

fn class(name: &str, groups: &[&[&str]], algebra: &GeometricAlgebra) -> MultiVectorClass {
    MultiVectorClass {
        class_name: name.to_string(),
        grouped_basis: groups
            .iter()
            .map(|group| {
                group
                    .iter()
                    .map(|element| BasisElement::parse(element, algebra).unwrap())
                    .collect()
            })
            .collect(),
    }
}

fn operation<'a>(name: &'static str, class: &'a MultiVectorClass) -> AstNode<'a> {
    AstNode::TraitImplementation {
        result: Parameter { name, data_type: DataType::MultiVector(class) },
        parameters: vec![],
        body: vec![],
    }
}

fn node<'a>(content: ExpressionContent<'a>) -> Expression<'a> {
    Expression { size: 1, content }
}

fn variable<'a>(name: &'static str) -> Expression<'a> {
    node(ExpressionContent::Variable(name))
}

fn call<'a>(
    receiver_type: DataType<'a>,
    receiver: Expression<'a>,
    method: &'static str,
    arguments: Vec<(DataType<'a>, Expression<'a>)>,
) -> Expression<'a> {
    node(ExpressionContent::InvokeInstanceMethod(receiver_type, Box::new(receiver), method, arguments))
}

fn returning<'a>(
    name: &'static str,
    data_type: DataType<'a>,
    parameters: Vec<Parameter<'a>>,
    expression: Expression<'a>,
) -> AstNode<'a> {
    AstNode::TraitImplementation {
        result: Parameter { name, data_type },
        parameters,
        body: vec![AstNode::ReturnStatement { expression: Box::new(expression) }],
    }
}

fn reciprocal<'a>(a: DataType<'a>, method: &'static str) -> Expression<'a> {
    node(ExpressionContent::Divide(
        Box::new(node(ExpressionContent::Constant(DataType::SimdVector(1), vec![1]))),
        Box::new(node(ExpressionContent::Access(
            Box::new(call(a, variable("self"), method, vec![])),
            0,
        ))),
    ))
}

fn constructor<'a>(class: &'a MultiVectorClass, lane: Expression<'a>) -> Expression<'a> {
    node(ExpressionContent::InvokeClassMethod(
        class,
        "Constructor",
        vec![(DataType::SimdVector(1), lane)],
    ))
}

#[test]
fn derived_operations_are_calls() {
    let squares = [1isize, 1];
    let algebra = GeometricAlgebra { generator_squares: &squares };
    let scalar = class("Scalar", &[&["1"]], &algebra);
    let vector = class("Vector", &[&["e0", "e1"]], &algebra);
    let rotor = class("Rotor", &[&["1", "e01"]], &algebra);
    let a = DataType::MultiVector(&vector);
    let parameter_a = Parameter { name: "self", data_type: a };
    let parameter_b = Parameter { name: "other", data_type: DataType::MultiVector(&scalar) };
    let scalar_product = operation("ScalarProduct", &scalar);
    let geometric_product = operation("GeometricProduct", &vector);
    let reversal = operation("Reversal", &vector);

    let squared = MultiVectorClass::derive_squared_magnitude(
        "SquaredMagnitude",
        &scalar_product,
        &reversal,
        &parameter_a,
    );
    assert_eq!(
        squared,
        returning(
            "SquaredMagnitude",
            DataType::MultiVector(&scalar),
            vec![parameter_a],
            call(
                a,
                variable("self"),
                "ScalarProduct",
                vec![(a, call(a, variable("self"), "Reversal", vec![]))],
            ),
        )
    );

    let magnitude = MultiVectorClass::derive_magnitude("Magnitude", &squared, &parameter_a);
    assert_eq!(
        magnitude,
        returning(
            "Magnitude",
            DataType::MultiVector(&scalar),
            vec![parameter_a],
            constructor(
                &scalar,
                node(ExpressionContent::SquareRoot(Box::new(node(ExpressionContent::Access(
                    Box::new(call(a, variable("self"), "SquaredMagnitude", vec![])),
                    0,
                ))))),
            ),
        )
    );

    let scale =
        MultiVectorClass::derive_scale("Scale", &geometric_product, &parameter_a, &parameter_b);
    assert_eq!(
        scale,
        returning(
            "Scale",
            a,
            vec![parameter_a, Parameter { name: "other", data_type: DataType::SimdVector(1) }],
            call(
                a,
                variable("self"),
                "GeometricProduct",
                vec![(DataType::MultiVector(&scalar), constructor(&scalar, variable("other")))],
            ),
        )
    );

    let signum =
        MultiVectorClass::derive_signum("Signum", &geometric_product, &magnitude, &parameter_a);
    assert_eq!(
        signum,
        returning(
            "Signum",
            a,
            vec![parameter_a],
            call(
                a,
                variable("self"),
                "GeometricProduct",
                vec![(
                    DataType::MultiVector(&scalar),
                    constructor(&scalar, reciprocal(a, "Magnitude")),
                )],
            ),
        )
    );

    let inverse = MultiVectorClass::derive_inverse(
        "Inverse",
        &geometric_product,
        &squared,
        &reversal,
        &parameter_a,
    );
    assert_eq!(
        inverse,
        returning(
            "Inverse",
            a,
            vec![parameter_a],
            call(
                a,
                call(a, variable("self"), "Reversal", vec![]),
                "GeometricProduct",
                vec![(
                    DataType::MultiVector(&scalar),
                    constructor(&scalar, reciprocal(a, "SquaredMagnitude")),
                )],
            ),
        )
    );

    let rotor_type = DataType::MultiVector(&rotor);
    let other = Parameter { name: "other", data_type: rotor_type };
    let to_rotor = operation("GeometricProduct", &rotor);
    let rotor_inverse = operation("Inverse", &rotor);
    let division = MultiVectorClass::derive_division(
        "GeometricQuotient",
        &to_rotor,
        &rotor_inverse,
        &parameter_a,
        &other,
    );
    assert_eq!(
        division,
        returning(
            "GeometricQuotient",
            rotor_type,
            vec![parameter_a, other],
            call(
                a,
                variable("self"),
                "GeometricProduct",
                vec![(rotor_type, call(rotor_type, variable("other"), "Inverse", vec![]))],
            ),
        )
    );
}

#[test]
fn sandwich_with_and_without_conversion() {
    let squares = [1isize, 1];
    let algebra = GeometricAlgebra { generator_squares: &squares };
    let vector = class("Vector", &[&["e0", "e1"]], &algebra);
    let rotor = class("Rotor", &[&["1", "e01"]], &algebra);
    let multi = class("MultiVector", &[&["1", "e01"], &["e0", "e1"]], &algebra);
    let a = DataType::MultiVector(&rotor);
    let b = DataType::MultiVector(&vector);
    let parameter_a = Parameter { name: "self", data_type: a };
    let parameter_b = Parameter { name: "other", data_type: b };
    let first = operation("GeometricProduct", &multi);
    let second = operation("GeometricProduct", &multi);
    let reversal = operation("Reversal", &rotor);
    let into = operation("Into", &vector);
    let product = || {
        call(
            DataType::MultiVector(&multi),
            call(a, variable("self"), "GeometricProduct", vec![(b, variable("other"))]),
            "GeometricProduct",
            vec![(a, call(a, variable("self"), "Reversal", vec![]))],
        )
    };
    let plain = MultiVectorClass::derive_sandwich_product(
        "Transformation",
        &first,
        &second,
        &reversal,
        None,
        &parameter_a,
        &parameter_b,
    );
    assert_eq!(
        plain,
        returning(
            "Transformation",
            DataType::MultiVector(&multi),
            vec![parameter_a, parameter_b],
            product(),
        )
    );
    let converted = MultiVectorClass::derive_sandwich_product(
        "Transformation",
        &first,
        &second,
        &reversal,
        Some(&into),
        &parameter_a,
        &parameter_b,
    );
    assert_eq!(
        converted,
        returning(
            "Transformation",
            b,
            vec![parameter_a, parameter_b],
            node(ExpressionContent::Conversion(&multi, &vector, Box::new(product()))),
        )
    );
}
