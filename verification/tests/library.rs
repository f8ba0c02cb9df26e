use geometric_algebra::algebra::GeometricAlgebra;
use geometric_algebra::config::{parse_configuration, ConfigurationError};
use geometric_algebra::driver::generate;
use geometric_algebra::emit::{Emitter, Malformed};
use geometric_algebra::library::{generate_library, write_library, GenerationError};

const PLANE: &str = "epga2d:1,1;Scalar:1;Vector:e0,e1;Rotor:1,e01;MultiVector:1|e0,e1|e01";

#[test]
fn a_library_holds_the_table_and_both_dialects() {
    let (configuration, library) = match generate_library(PLANE) {
        Ok(generated) => generated,
        Err(error) => panic!("{:?}", error),
    };
    assert_eq!(configuration.algebra_name, "epga2d");
    assert_eq!(configuration.generator_squares, vec![1, 1]);
    assert_eq!(configuration.registry.classes.len(), 4);
    assert_eq!(
        library.table,
        "   1   e0  -e1  e01 \n  e0    1  e01  -e1 \n -e1 -e01    1  -e0 \n e01   e1   e0   -1 \n"
    );
    assert!(library.rust.starts_with(
        "#![allow(clippy::assign_op_pattern)]\nuse crate::{simd::*, *};\nuse std::ops::{Add, AddAssign, Div, DivAssign, Mul, MulAssign, Neg, Sub, SubAssign};\n\n#[derive(Clone, Copy)]\nstruct ScalarGroups {\n    /// 1\n    g0: f32,\n}\n\n"
    ));
    assert!(library.glsl.starts_with(
        "struct Scalar {\n    // 1\n    float g0;\n};\n\nstruct Vector {\n    // e0, e1\n    vec2 g0;\n};\n\nstruct Rotor {\n    // 1, e01\n    vec2 g0;\n};\n\nstruct MultiVector {\n    // 1\n    float g0;\n    // e0, e1\n    vec2 g1;\n    // e01\n    float g2;\n};\n\nScalar scalar_zero() {\n    return Scalar(0.0);\n}\n\n"
    ));
    assert!(library.glsl.contains(
        "Rotor vector_vector_geometric_product(Vector self, Vector other) {\n    return Rotor("
    ));
    assert!(library.rust.contains(
        "impl SquaredMagnitude for Vector {\n    type Output = Scalar;\n\n    fn squared_magnitude(self) -> Scalar {\n        self.scalar_product(self.reversal())\n    }\n}\n\n"
    ));
    assert!(library.rust.contains(
        "impl Magnitude for Vector {\n    type Output = Scalar;\n\n    fn magnitude(self) -> Scalar {\n        Scalar { groups: ScalarGroups { g0: self.squared_magnitude().group0().sqrt() } }\n    }\n}\n\n"
    ));
    assert!(library.glsl.contains(
        "Scalar vector_magnitude(Vector self) {\n    return Scalar(sqrt(vector_squared_magnitude(self).g0));\n}\n\n"
    ));
    assert!(library.rust.contains(
        "impl Add<Vector> for Vector {\n    type Output = Vector;\n\n    fn add(self, other: Vector) -> Vector {\n        Vector { groups: VectorGroups { g0: self.group0() + other.group0() } }\n    }\n}\n\nimpl AddAssign<Vector> for Vector {\n    fn add_assign(&mut self, other: Vector) {\n        *self = (*self).add(other);\n    }\n}\n\n"
    ));
}

#[test]
fn a_library_is_what_the_emitter_writes_of_what_is_generated() {
    for text in [PLANE, "ppga2d:0,1,1;Scalar:1;Point:e12,e01,-e02;Motor:1,e12,e01,-e02", "c:-1"] {
        let configuration = parse_configuration(text).ok().unwrap();
        let algebra =
            GeometricAlgebra { generator_squares: configuration.generator_squares.as_slice() };
        let generated = generate(&algebra, &configuration.registry);
        let mut emitter = Emitter::new();
        for node in generated.emission_order() {
            assert_eq!(emitter.emit(node), Ok(()));
        }
        let library = write_library(&configuration).ok().unwrap();
        assert_eq!(library.rust, emitter.rust_collector);
        assert_eq!(library.glsl, emitter.glsl_collector);
        assert_eq!(library.table, algebra.multiplication_table());
        let (again, twice) = generate_library(text).ok().unwrap();
        assert_eq!(again.algebra_name, configuration.algebra_name);
        assert_eq!(again.registry.classes, configuration.registry.classes);
        assert_eq!(twice.rust, library.rust);
        assert_eq!(twice.glsl, library.glsl);
        assert_eq!(twice.table, library.table);
    }
}

#[test]
fn an_algebra_without_classes_has_a_preamble_only() {
    let (_, library) = generate_library("c:-1").ok().unwrap();
    assert_eq!(library.table, "  1  e0 \n e0  -1 \n");
    assert_eq!(
        library.rust,
        "#![allow(clippy::assign_op_pattern)]\nuse crate::{simd::*, *};\nuse std::ops::{Add, AddAssign, Div, DivAssign, Mul, MulAssign, Neg, Sub, SubAssign};\n\n"
    );
    assert_eq!(library.glsl, "");
}

fn error_of(text: &str) -> GenerationError {
    match generate_library(text) {
        Ok(_) => panic!("{:?} has a library", text),
        Err(error) => error,
    }
}

#[test]
fn no_library_without_a_configuration() {
    assert_eq!(error_of(""), GenerationError::Configuration(ConfigurationError::MissingSignature));
    assert_eq!(error_of("a:1,one"), GenerationError::Configuration(ConfigurationError::BadNumber));
    assert_eq!(error_of("a:1,3"), GenerationError::Configuration(ConfigurationError::BadSignature));
    assert_eq!(error_of("a:1;V"), GenerationError::Configuration(ConfigurationError::MissingGroups));
    assert_eq!(
        error_of("a:1;V:e1"),
        GenerationError::Configuration(ConfigurationError::UnknownElement)
    );
    assert_eq!(error_of("a:1;V:e0,-e0"), GenerationError::Configuration(ConfigurationError::BadClass));
}

#[test]
fn no_library_with_a_cancelled_element() {
    let text = "d:0,1;Scalar:1;Null:e00,e1";
    let configuration = parse_configuration(text).ok().unwrap();
    assert_eq!(configuration.registry.classes[1].grouped_basis[0][0].scalar, 0);
    assert_eq!(error_of(text), GenerationError::Malformed);
    assert!(matches!(write_library(&configuration), Err(Malformed)));
    assert!(generate_library("d:0,1;Scalar:1;Null:e0,e1").is_ok());
}

#[test]
fn no_library_in_the_shader_dialect_with_groups_of_more_than_four_lanes() {
    let wide = "s:1,1,1;Scalar:1;Even:1,e01,e02,e12;All:1,e0,e1,e2,e01,e02,e12,e012";
    assert_eq!(error_of(wide), GenerationError::Malformed);
    let narrow = "s:1,1,1;Scalar:1;Even:1,e01,e02,e12;All:1,e0,e1,e2|e01,e02,e12,e012";
    assert!(generate_library(narrow).is_ok());
}
