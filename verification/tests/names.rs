use geometric_algebra::algebra::{BasisElement, GeometricAlgebra};
use geometric_algebra::ast::{DataType, Parameter};
use geometric_algebra::class::MultiVectorClass;
use geometric_algebra::emit::{
    camel_to_snake_case, emit_element_name, emit_function_name, emit_indentation, emit_literal,
};

fn element(scalar: isize, index: u16) -> BasisElement {
    BasisElement { scalar, index }
}

#[test]
fn parse_reads_scalars() {
    let squares = [1isize, 1, 1];
    let algebra = GeometricAlgebra { generator_squares: &squares };
    assert_eq!(BasisElement::parse("1", &algebra), Some(element(1, 0)));
    assert_eq!(BasisElement::parse("-1", &algebra), Some(element(-1, 0)));
    assert_eq!(BasisElement::parse("e", &algebra), Some(element(1, 0)));
    assert_eq!(BasisElement::parse("-e", &algebra), Some(element(-1, 0)));
}

#[test]
fn parse_reads_generators() {
    let squares = [1isize, 1, 1];
    let algebra = GeometricAlgebra { generator_squares: &squares };
    assert_eq!(BasisElement::parse("e0", &algebra), Some(element(1, 1)));
    assert_eq!(BasisElement::parse("e2", &algebra), Some(element(1, 4)));
    assert_eq!(BasisElement::parse("e01", &algebra), Some(element(1, 3)));
    assert_eq!(BasisElement::parse("-e02", &algebra), Some(element(-1, 5)));
    assert_eq!(BasisElement::parse("e012", &algebra), Some(element(1, 7)));
}

#[test]
fn parse_records_the_sign_of_the_order() {
    let squares = [1isize, 1, 1];
    let algebra = GeometricAlgebra { generator_squares: &squares };
    assert_eq!(BasisElement::parse("e10", &algebra), Some(element(-1, 3)));
    assert_eq!(BasisElement::parse("-e10", &algebra), Some(element(1, 3)));
    assert_eq!(BasisElement::parse("e210", &algebra), Some(element(-1, 7)));
    assert_eq!(BasisElement::parse("e120", &algebra), Some(element(1, 7)));
    // a repeated generator contributes its square
    assert_eq!(BasisElement::parse("e00", &algebra), Some(element(1, 0)));
    let degenerate = [0isize, -1];
    let algebra = GeometricAlgebra { generator_squares: &degenerate };
    assert_eq!(BasisElement::parse("e00", &algebra), Some(element(0, 0)));
    assert_eq!(BasisElement::parse("e11", &algebra), Some(element(-1, 0)));
}

#[test]
fn parse_reads_hexadecimal_digits() {
    let squares = [1isize; 12];
    let algebra = GeometricAlgebra { generator_squares: &squares };
    assert_eq!(BasisElement::parse("eA", &algebra), Some(element(1, 1 << 10)));
    assert_eq!(BasisElement::parse("eb", &algebra), Some(element(1, 1 << 11)));
    assert_eq!(BasisElement::parse("e9B", &algebra), Some(element(1, (1 << 9) | (1 << 11))));
    assert_eq!(BasisElement::parse("eC", &algebra), None);
}

#[test]
fn parse_rejects_what_is_no_name() {
    let squares = [1isize, 1];
    let algebra = GeometricAlgebra { generator_squares: &squares };
    assert_eq!(BasisElement::parse("", &algebra), None);
    assert_eq!(BasisElement::parse("-", &algebra), None);
    assert_eq!(BasisElement::parse("x0", &algebra), None);
    assert_eq!(BasisElement::parse("2", &algebra), None);
    assert_eq!(BasisElement::parse("11", &algebra), None);
    assert_eq!(BasisElement::parse("e2", &algebra), None);
    assert_eq!(BasisElement::parse("e0g", &algebra), None);
    assert_eq!(BasisElement::parse("e0-1", &algebra), None);
    assert_eq!(BasisElement::parse("--e0", &algebra), None);
    assert_eq!(BasisElement::parse("e\u{e9}", &algebra), None);
}

#[test]
fn to_string_writes_the_name() {
    assert_eq!(element(1, 0).to_string(), "1");
    assert_eq!(element(-1, 0).to_string(), "-1");
    assert_eq!(element(0, 3).to_string(), "0");
    assert_eq!(element(1, 3).to_string(), "e01");
    assert_eq!(element(-1, 5).to_string(), "-e02");
    assert_eq!(element(1, (1 << 10) | (1 << 15) | 1).to_string(), "e0AF");
}

#[test]
fn to_string_and_parse_agree() {
    let squares = [1isize, -1, 0, 1];
    let algebra = GeometricAlgebra { generator_squares: &squares };
    for index in 0..16u16 {
        for sign in [-1isize, 1] {
            let x = element(sign, index);
            assert_eq!(BasisElement::parse(&x.to_string(), &algebra), Some(x));
        }
    }
}

#[test]
fn snake_case_of_operation_names() {
    assert_eq!(camel_to_snake_case("GeometricProduct"), "geometric_product");
    assert_eq!(camel_to_snake_case("Zero"), "zero");
    assert_eq!(camel_to_snake_case("MultiVector"), "multi_vector");
    assert_eq!(camel_to_snake_case("powi"), "powi");
    assert_eq!(camel_to_snake_case(""), "");
    assert_eq!(camel_to_snake_case("ABc"), "a_bc");
    assert_eq!(camel_to_snake_case("Point3D"), "point3_d");
    assert_eq!(camel_to_snake_case("a_B"), "a__b");
}

#[test]
fn indentation_is_four_spaces_a_level() {
    assert_eq!(emit_indentation(0), "");
    assert_eq!(emit_indentation(1), "    ");
    assert_eq!(emit_indentation(3), "            ");
}

#[test]
fn element_names_in_generated_code() {
    assert_eq!(emit_element_name(&element(1, 0)), "scalar");
    assert_eq!(emit_element_name(&element(-1, 0)), "scalar");
    assert_eq!(emit_element_name(&element(1, 3)), "e01");
    assert_eq!(emit_element_name(&element(-1, 5)), "_e02");
    assert_eq!(emit_element_name(&element(1, 1 << 11)), "eB");
}

#[test]
fn literals_have_one_decimal() {
    assert_eq!(emit_literal(0), "0.0");
    assert_eq!(emit_literal(1), "1.0");
    assert_eq!(emit_literal(-1), "-1.0");
    assert_eq!(emit_literal(10), "10.0");
    assert_eq!(emit_literal(-907), "-907.0");
    assert_eq!(emit_literal(isize::MAX), format!("{}.0", isize::MAX));
    assert_eq!(emit_literal(isize::MIN), format!("{}.0", isize::MIN));
    for value in -1000..1000isize {
        assert_eq!(emit_literal(value), format!("{:.1}", value as f32));
    }
}

#[test]
fn names_of_free_functions() {
    let class = |name: &str| MultiVectorClass { class_name: name.to_string(), grouped_basis: vec![] };
    let motor = class("Motor");
    let point = class("PointAndPlane");
    let of = |class| DataType::MultiVector(class);
    let this = Parameter { name: "self", data_type: of(&motor) };
    let other = Parameter { name: "other", data_type: of(&point) };
    let result = |name| Parameter { name, data_type: of(&point) };
    assert_eq!(emit_function_name(&result("One"), &vec![]), "point_and_plane_one");
    assert_eq!(emit_function_name(&result("Reversal"), &vec![this]), "motor_reversal");
    assert_eq!(emit_function_name(&result("Into"), &vec![this]), "motor_point_and_plane_into");
    assert_eq!(
        emit_function_name(&result("GeometricProduct"), &vec![this, other]),
        "motor_point_and_plane_geometric_product"
    );
    let lane = Parameter { name: "other", data_type: DataType::SimdVector(1) };
    assert_eq!(emit_function_name(&result("Scale"), &vec![this, lane]), "motor_scale");
    let exponent = Parameter { name: "exponent", data_type: DataType::Integer };
    assert_eq!(emit_function_name(&result("Powi"), &vec![this, exponent]), "motor_powi");
}
