use geometric_algebra::algebra::{BasisElement, GeometricAlgebra};
use geometric_algebra::ast::{AstNode, DataType, Expression, ExpressionContent, Parameter};
use geometric_algebra::class::{MultiVectorClass, MultiVectorClassRegistry};
use geometric_algebra::definition::emit_class_definition;
use geometric_algebra::driver::generate;
use geometric_algebra::emit::{Emitter, Malformed};
use geometric_algebra::{glsl, rust};

fn element(scalar: isize, index: u16) -> BasisElement {
    BasisElement { scalar, index }
}

fn class(name: &str, groups: &[&[(isize, u16)]]) -> MultiVectorClass {
    MultiVectorClass {
        class_name: name.to_owned(),
        grouped_basis: groups
            .iter()
            .map(|group| group.iter().map(|(scalar, index)| element(*scalar, *index)).collect())
            .collect(),
    }
}

fn motor() -> MultiVectorClass {
    class("Motor", &[&[(1, 0), (1, 6)], &[(1, 3), (1, 5)]])
}

fn point() -> MultiVectorClass {
    class("Point", &[&[(1, 6), (1, 3), (-1, 5)]])
}

fn ideal_point() -> MultiVectorClass {
    class("IdealPoint", &[&[(1, 3), (1, 5)]])
}

fn var<'a>(name: &'static str, size: usize) -> Expression<'a> {
    Expression { size, content: ExpressionContent::Variable(name) }
}

fn lines(parts: &[&str]) -> String {
    let mut text = String::new();
    for part in parts {
        text.push_str(part);
        text.push('\n');
    }
    text
}

fn in_glsl(expression: &Expression) -> Result<String, Malformed> {
    let mut text = String::from("> ");
    glsl::emit_expression(&mut text, expression)?;
    Ok(text)
}

fn in_rust(expression: &Expression) -> Result<String, Malformed> {
    let mut text = String::from("> ");
    rust::emit_expression(&mut text, expression)?;
    Ok(text)
}

fn glsl_code(node: &AstNode, indentation: usize) -> Result<String, Malformed> {
    let mut text = String::new();
    glsl::emit_code(&mut text, node, indentation)?;
    Ok(text)
}

fn rust_code(node: &AstNode, indentation: usize) -> Result<String, Malformed> {
    let mut text = String::new();
    rust::emit_code(&mut text, node, indentation)?;
    Ok(text)
}

fn both(expression: &Expression, glsl_text: &str, rust_text: &str) {
    assert_eq!(in_glsl(expression).unwrap(), format!("> {}", glsl_text));
    assert_eq!(in_rust(expression).unwrap(), format!("> {}", rust_text));
}

fn binary<'a>(
    make: fn(Box<Expression<'a>>, Box<Expression<'a>>) -> ExpressionContent<'a>,
) -> Expression<'a> {
    Expression { size: 1, content: make(Box::new(var("a", 1)), Box::new(var("b", 1))) }
}

#[test]
fn data_types_have_the_names_of_the_dialect() {
    let motor = motor();
    let cases = [
        (DataType::Integer, "int", "isize"),
        (DataType::SimdVector(1), "float", "f32"),
        (DataType::SimdVector(2), "vec2", "Simd32x2"),
        (DataType::SimdVector(4), "vec4", "Simd32x4"),
        (DataType::SimdVector(16), "vec16", "Simd32x16"),
        (DataType::MultiVector(&motor), "Motor", "Motor"),
    ];
    for (data_type, glsl_name, rust_name) in cases.iter() {
        let mut text = String::from("a ");
        glsl::emit_data_type(&mut text, data_type);
        assert_eq!(text, format!("a {}", glsl_name));
        let mut text = String::from("a ");
        rust::emit_data_type(&mut text, data_type);
        assert_eq!(text, format!("a {}", rust_name));
    }
}

#[test]
fn variables_and_groups_are_written() {
    both(&var("self", 4), "self", "self");
    let access =
        Expression { size: 4, content: ExpressionContent::Access(Box::new(var("self", 4)), 1) };
    both(&access, "self.g1", "self.group1()");
    let far =
        Expression { size: 4, content: ExpressionContent::Access(Box::new(var("other", 4)), 12) };
    both(&far, "other.g12", "other.group12()");
}

#[test]
fn binary_operations_are_written_with_their_sign() {
    both(&binary(ExpressionContent::Add), "a + b", "a + b");
    both(&binary(ExpressionContent::Subtract), "a - b", "a - b");
    both(&binary(ExpressionContent::Multiply), "a * b", "a * b");
    both(&binary(ExpressionContent::Divide), "a / b", "a / b");
    both(&binary(ExpressionContent::LessThan), "a < b", "a < b");
    both(&binary(ExpressionContent::Equal), "a == b", "a == b");
    both(&binary(ExpressionContent::LogicAnd), "(a & b)", "a & b");
    both(&binary(ExpressionContent::BitShiftRight), "a >> b", "a >> b");
}

#[test]
fn nested_operations_are_written_in_order() {
    let product = Expression {
        size: 1,
        content: ExpressionContent::Multiply(Box::new(var("b", 1)), Box::new(var("c", 1))),
    };
    let sum = Expression {
        size: 1,
        content: ExpressionContent::Add(Box::new(var("a", 1)), Box::new(product)),
    };
    let root = Expression { size: 1, content: ExpressionContent::SquareRoot(Box::new(sum)) };
    both(&root, "sqrt(a + b * c)", "a + b * c.sqrt()");
}

#[test]
fn constants_are_written_as_literals() {
    let vector = Expression {
        size: 4,
        content: ExpressionContent::Constant(DataType::SimdVector(4), vec![1, 0, -1, 2]),
    };
    both(&vector, "vec4(1.0, 0.0, -1.0, 2.0)", "Simd32x4::from([1.0, 0.0, -1.0, 2.0])");
    let single = Expression {
        size: 1,
        content: ExpressionContent::Constant(DataType::SimdVector(1), vec![-3]),
    };
    both(&single, "-3.0", "-3.0");
    let splat = Expression {
        size: 2,
        content: ExpressionContent::Constant(DataType::SimdVector(2), vec![5]),
    };
    both(&splat, "vec2(5.0)", "Simd32x2::from(5.0)");
    let none = Expression {
        size: 3,
        content: ExpressionContent::Constant(DataType::SimdVector(3), vec![]),
    };
    both(&none, "vec3()", "Simd32x3::from()");
    let integer =
        Expression { size: 1, content: ExpressionContent::Constant(DataType::Integer, vec![2]) };
    both(&integer, "2", "2");
    let negative = Expression {
        size: 1,
        content: ExpressionContent::Constant(DataType::Integer, vec![-17, 4]),
    };
    both(&negative, "-17", "-17");
    let zero =
        Expression { size: 1, content: ExpressionContent::Constant(DataType::Integer, vec![0]) };
    both(&zero, "0", "0");
}

#[test]
fn constants_without_a_value_or_of_a_class_are_refused() {
    let motor = motor();
    let cases = [
        Expression { size: 1, content: ExpressionContent::Constant(DataType::Integer, vec![]) },
        Expression {
            size: 1,
            content: ExpressionContent::Constant(DataType::SimdVector(1), vec![]),
        },
        Expression {
            size: 4,
            content: ExpressionContent::Constant(DataType::MultiVector(&motor), vec![1]),
        },
        Expression { size: 1, content: ExpressionContent::Empty },
    ];
    for expression in cases.iter() {
        assert_eq!(in_glsl(expression), Err(Malformed));
        assert_eq!(in_rust(expression), Err(Malformed));
    }
}

#[test]
fn an_absent_expression_anywhere_is_refused() {
    let absent = || Box::new(Expression { size: 1, content: ExpressionContent::Empty });
    let present = || Box::new(var("a", 1));
    let motor = motor();
    let cases = [
        Expression { size: 1, content: ExpressionContent::Add(present(), absent()) },
        Expression { size: 1, content: ExpressionContent::Multiply(absent(), present()) },
        Expression { size: 1, content: ExpressionContent::SquareRoot(absent()) },
        Expression { size: 1, content: ExpressionContent::Access(absent(), 0) },
        Expression { size: 1, content: ExpressionContent::Select(present(), present(), absent()) },
        Expression { size: 1, content: ExpressionContent::Select(absent(), present(), present()) },
        Expression { size: 1, content: ExpressionContent::Conversion(&motor, &motor, absent()) },
        Expression { size: 1, content: ExpressionContent::Gather(absent(), vec![(0, 0)]) },
        Expression { size: 1, content: ExpressionContent::Swizzle(absent(), vec![0]) },
        Expression {
            size: 1,
            content: ExpressionContent::InvokeClassMethod(
                &motor,
                "Constructor",
                vec![(DataType::SimdVector(1), *present()), (DataType::SimdVector(1), *absent())],
            ),
        },
        Expression {
            size: 1,
            content: ExpressionContent::InvokeInstanceMethod(
                DataType::MultiVector(&motor),
                absent(),
                "Reversal",
                vec![],
            ),
        },
        Expression {
            size: 1,
            content: ExpressionContent::InvokeInstanceMethod(
                DataType::MultiVector(&motor),
                present(),
                "Scale",
                vec![(DataType::SimdVector(1), *absent())],
            ),
        },
    ];
    for expression in cases.iter() {
        assert_eq!(in_glsl(expression), Err(Malformed));
        assert_eq!(in_rust(expression), Err(Malformed));
    }
}

#[test]
fn a_gather_of_nothing_needs_no_source() {
    let absent = Box::new(Expression { size: 4, content: ExpressionContent::Empty });
    let gather = Expression { size: 4, content: ExpressionContent::Gather(absent, vec![]) };
    both(&gather, "vec4()", "Simd32x4::from()");
}

#[test]
fn gathers_pick_lanes_of_groups() {
    let wide = Expression {
        size: 4,
        content: ExpressionContent::Gather(
            Box::new(var("self", 4)),
            vec![(0, 1), (0, 0), (1, 2), (1, 3)],
        ),
    };
    both(
        &wide,
        "vec4(self.g0.y, self.g0.x, self.g1.z, self.g1.w)",
        "Simd32x4::from([self.group0()[1], self.group0()[0], self.group1()[2], self.group1()[3]])",
    );
    let narrow = Expression {
        size: 1,
        content: ExpressionContent::Gather(Box::new(var("self", 1)), vec![(0, 0)]),
    };
    both(&narrow, "self.g0", "self.group0()");
    let lane = Expression {
        size: 1,
        content: ExpressionContent::Gather(Box::new(var("other", 4)), vec![(2, 1)]),
    };
    both(&lane, "other.g2.y", "other.group2()[1]");
    let spread = Expression {
        size: 2,
        content: ExpressionContent::Gather(Box::new(var("self", 1)), vec![(0, 0), (3, 0)]),
    };
    both(&spread, "vec2(self.g0, self.g3)", "Simd32x2::from([self.group0(), self.group3()])");
    let broadcast = Expression {
        size: 3,
        content: ExpressionContent::Gather(Box::new(var("self", 2)), vec![(1, 0)]),
    };
    both(&broadcast, "vec3(self.g1.x)", "Simd32x3::from(self.group1()[0])");
}

#[test]
fn swizzles_name_their_lanes() {
    let several = Expression {
        size: 3,
        content: ExpressionContent::Swizzle(Box::new(var("x", 4)), vec![0, 1, 3]),
    };
    both(&several, "x.xyw", "swizzle!(x, 0, 1, 3)");
    let one = Expression {
        size: 1,
        content: ExpressionContent::Swizzle(Box::new(var("x", 4)), vec![2]),
    };
    both(&one, "x.z", "x[2]");
    let of_one = Expression {
        size: 1,
        content: ExpressionContent::Swizzle(Box::new(var("x", 1)), vec![0]),
    };
    both(&of_one, "x.x", "x");
}

#[test]
fn the_shader_dialect_has_four_lanes() {
    let fifth = Expression {
        size: 2,
        content: ExpressionContent::Swizzle(Box::new(var("x", 8)), vec![0, 4]),
    };
    assert_eq!(in_glsl(&fifth), Err(Malformed));
    assert_eq!(in_rust(&fifth).unwrap(), "> swizzle!(x, 0, 4)");
    let gathered = Expression {
        size: 2,
        content: ExpressionContent::Gather(Box::new(var("x", 8)), vec![(0, 1), (0, 7)]),
    };
    assert_eq!(in_glsl(&gathered), Err(Malformed));
    assert_eq!(in_rust(&gathered).unwrap(), "> Simd32x2::from([x.group0()[1], x.group0()[7]])");
    let of_single_lanes = Expression {
        size: 1,
        content: ExpressionContent::Gather(Box::new(var("x", 1)), vec![(0, 7)]),
    };
    assert_eq!(in_glsl(&of_single_lanes).unwrap(), "> x.g0");
}

#[test]
fn a_choice_of_one_lane_needs_a_lane() {
    let none = Expression {
        size: 1,
        content: ExpressionContent::Swizzle(Box::new(var("x", 4)), vec![]),
    };
    assert_eq!(in_rust(&none), Err(Malformed));
    assert_eq!(in_glsl(&none).unwrap(), "> x.");
    let of_one = Expression {
        size: 1,
        content: ExpressionContent::Swizzle(Box::new(var("x", 1)), vec![]),
    };
    assert_eq!(in_rust(&of_one).unwrap(), "> x");
}

#[test]
fn calls_are_named_after_their_classes() {
    let motor = motor();
    let point = point();
    let product = Expression {
        size: 1,
        content: ExpressionContent::InvokeInstanceMethod(
            DataType::MultiVector(&motor),
            Box::new(var("self", 1)),
            "GeometricProduct",
            vec![(DataType::MultiVector(&point), var("other", 1))],
        ),
    };
    both(&product, "motor_point_geometric_product(self, other)", "self.geometric_product(other)");
    let reversal = Expression {
        size: 1,
        content: ExpressionContent::InvokeInstanceMethod(
            DataType::MultiVector(&motor),
            Box::new(var("self", 1)),
            "Reversal",
            vec![],
        ),
    };
    both(&reversal, "motor_reversal(self)", "self.reversal()");
    let power = Expression {
        size: 1,
        content: ExpressionContent::InvokeInstanceMethod(
            DataType::MultiVector(&motor),
            Box::new(var("x", 1)),
            "Powi",
            vec![(DataType::Integer, var("exponent", 1))],
        ),
    };
    both(&power, "motor_powi(x, exponent)", "x.powi(exponent)");
    let of_vector = Expression {
        size: 4,
        content: ExpressionContent::InvokeInstanceMethod(
            DataType::SimdVector(4),
            Box::new(var("x", 4)),
            "Abs",
            vec![(DataType::MultiVector(&point), var("a", 1)), (DataType::Integer, var("b", 1))],
        ),
    };
    both(&of_vector, "point_abs(x, a, b)", "x.abs(a, b)");
    let one = Expression {
        size: 1,
        content: ExpressionContent::InvokeClassMethod(&motor, "One", vec![]),
    };
    both(&one, "motor_one()", "Motor::one()");
}

#[test]
fn constructors_name_their_groups() {
    let motor = motor();
    let ideal = ideal_point();
    let built = Expression {
        size: 1,
        content: ExpressionContent::InvokeClassMethod(
            &motor,
            "Constructor",
            vec![(DataType::SimdVector(2), var("a", 2)), (DataType::SimdVector(2), var("b", 2))],
        ),
    };
    both(&built, "Motor(a, b)", "Motor { groups: MotorGroups { g0: a, g1: b } }");
    let single = Expression {
        size: 1,
        content: ExpressionContent::InvokeClassMethod(
            &ideal,
            "Constructor",
            vec![(DataType::SimdVector(2), var("a", 2))],
        ),
    };
    both(&single, "IdealPoint(a)", "IdealPoint { groups: IdealPointGroups { g0: a } }");
}

#[test]
fn conversions_and_selections_are_written() {
    let point = point();
    let ideal = ideal_point();
    let conversion = Expression {
        size: 1,
        content: ExpressionContent::Conversion(&point, &ideal, Box::new(var("self", 1))),
    };
    both(&conversion, "point_ideal_point_into(self)", "self.into()");
    let selection = Expression {
        size: 1,
        content: ExpressionContent::Select(
            Box::new(var("c", 1)),
            Box::new(var("t", 1)),
            Box::new(var("e", 1)),
        ),
    };
    both(&selection, "(c) ? t : e", "if c { t } else { e }");
}

#[test]
fn classes_are_defined_in_the_shader_dialect() {
    let motor = motor();
    let text = glsl_code(&AstNode::ClassDefinition { class: &motor }, 0).unwrap();
    assert_eq!(
        text,
        lines(&[
            "struct Motor {",
            "    // 1, e12",
            "    vec2 g0;",
            "    // e01, e02",
            "    vec2 g1;",
            "};",
            "",
        ])
    );
    let scalar = class("Scalar", &[&[(1, 0)]]);
    let text = glsl_code(&AstNode::ClassDefinition { class: &scalar }, 1).unwrap();
    assert_eq!(
        text,
        lines(&["struct Scalar {", "        // 1", "        float g0;", "    };", ""])
    );
    let point = point();
    let text = glsl_code(&AstNode::ClassDefinition { class: &point }, 0).unwrap();
    assert_eq!(
        text,
        lines(&["struct Point {", "    // e12, e01, -e02", "    vec3 g0;", "};", ""])
    );
}

#[test]
fn a_class_of_one_group_is_defined_in_the_systems_dialect() {
    let point = point();
    let text = rust_code(&AstNode::ClassDefinition { class: &point }, 0).unwrap();
    assert_eq!(
        text,
        lines(&[
            "#[derive(Clone, Copy)]",
            "struct PointGroups {",
            "    /// e12, e01, -e02",
            "    g0: Simd32x3,",
            "}",
            "",
            "#[derive(Clone, Copy)]",
            "pub union Point {",
            "    groups: PointGroups,",
            "    /// e12, e01, -e02, 0",
            "    elements: [f32; 4],",
            "}",
            "",
            "impl Point {",
            "    #[allow(clippy::too_many_arguments)]",
            "    pub const fn new(e12: f32, e01: f32, _e02: f32) -> Self {",
            "        Self { elements: [e12, e01, _e02, 0.0] }",
            "    }",
            "    pub const fn from_groups(g0: Simd32x3) -> Self {",
            "        Self { groups: PointGroups { g0 } }",
            "    }",
            "    #[inline(always)]",
            "    pub fn group0(&self) -> Simd32x3 {",
            "        unsafe { self.groups.g0 }",
            "    }",
            "    #[inline(always)]",
            "    pub fn group0_mut(&mut self) -> &mut Simd32x3 {",
            "        unsafe { &mut self.groups.g0 }",
            "    }",
            "}",
            "",
            "const POINT_INDEX_REMAP: [usize; 3] = [0, 1, 2];",
            "",
            "impl std::ops::Index<usize> for Point {",
            "    type Output = f32;",
            "",
            "    fn index(&self, index: usize) -> &Self::Output {",
            "        unsafe { &self.elements[POINT_INDEX_REMAP[index]] }",
            "    }",
            "}",
            "",
            "impl std::ops::IndexMut<usize> for Point {",
            "    fn index_mut(&mut self, index: usize) -> &mut Self::Output {",
            "        unsafe { &mut self.elements[POINT_INDEX_REMAP[index]] }",
            "    }",
            "}",
            "",
            "impl std::convert::From<Point> for [f32; 3] {",
            "    fn from(vector: Point) -> Self {",
            "        unsafe { [vector.elements[0], vector.elements[1], vector.elements[2]] }",
            "    }",
            "}",
            "",
            "impl std::convert::From<[f32; 3]> for Point {",
            "    fn from(array: [f32; 3]) -> Self {",
            "        Self { elements: [array[0], array[1], array[2], 0.0] }",
            "    }",
            "}",
            "",
            "impl std::fmt::Debug for Point {",
            "    fn fmt(&self, formatter: &mut std::fmt::Formatter) -> std::fmt::Result {",
            "        formatter",
            "            .debug_struct(\"Point\")",
            "            .field(\"e12\", &self[0])",
            "            .field(\"e01\", &self[1])",
            "            .field(\"-e02\", &self[2])",
            "            .finish()",
            "    }",
            "}",
            "",
        ])
    );
}

#[test]
fn a_class_of_several_groups_is_laid_out_in_lanes() {
    let class = class(
        "IdealLine",
        &[&[(1, 0)], &[(1, 6), (1, 3)], &[(1, 1), (1, 2), (1, 4), (1, 7), (-1, 5)]],
    );
    let text = rust_code(&AstNode::ClassDefinition { class: &class }, 0).unwrap();
    let expected = [
        "struct IdealLineGroups {\n    /// 1\n    g0: f32,\n    /// e12, e01\n    g1: Simd32x2,\n    /// e0, e1, e2, e012, -e02\n    g2: Simd32x5,\n}\n\n",
        "    /// 1, e12, e01, 0, 0, e0, e1, e2, e012, -e02\n    elements: [f32; 9],\n",
        "    pub const fn new(scalar: f32, e12: f32, e01: f32, e0: f32, e1: f32, e2: f32, e012: f32, _e02: f32) -> Self {\n",
        "        Self { elements: [scalar, e12, e01, 0.0, 0.0, e0, e1, e2, e012, _e02] }\n",
        "    pub const fn from_groups(g0: f32, g1: Simd32x2, g2: Simd32x5) -> Self {\n",
        "        Self { groups: IdealLineGroups { g0, g1, g2 } }\n",
        "    pub fn group0(&self) -> f32 {\n        unsafe { self.groups.g0 }\n",
        "    pub fn group1_mut(&mut self) -> &mut Simd32x2 {\n        unsafe { &mut self.groups.g1 }\n",
        "    pub fn group2(&self) -> Simd32x5 {\n",
        "const IDEALLINE_INDEX_REMAP: [usize; 8] = [0, 1, 2, 5, 6, 7, 8, 9];\n\n",
        "        unsafe { &self.elements[IDEALLINE_INDEX_REMAP[index]] }\n",
        "impl std::convert::From<IdealLine> for [f32; 8] {\n",
        "        unsafe { [vector.elements[0], vector.elements[1], vector.elements[2], vector.elements[5], vector.elements[6], vector.elements[7], vector.elements[8], vector.elements[9]] }\n",
        "impl std::convert::From<[f32; 8]> for IdealLine {\n    fn from(array: [f32; 8]) -> Self {\n",
        "        Self { elements: [array[0], array[1], array[2], 0.0, 0.0, array[3], array[4], array[5], array[6], array[7]] }\n",
        "            .debug_struct(\"IdealLine\")\n            .field(\"1\", &self[0])\n            .field(\"e12\", &self[1])\n            .field(\"e01\", &self[2])\n            .field(\"e0\", &self[3])\n",
        "            .field(\"-e02\", &self[7])\n            .finish()\n    }\n}\n\n",
    ];
    let mut position = 0;
    for part in expected.iter() {
        let found = text[position..].find(part);
        assert!(found.is_some(), "missing after {}: {}", position, part);
        position += found.unwrap() + part.len();
    }
    assert_eq!(position, text.len());
}

#[test]
fn a_class_definition_is_indented_to_its_depth() {
    let scalar = class("Scalar", &[&[(1, 0)]]);
    let text = rust_code(&AstNode::ClassDefinition { class: &scalar }, 1).unwrap();
    assert!(text.starts_with(
        "    #[derive(Clone, Copy)]\nstruct ScalarGroups {\n        /// 1\n        g0: f32,\n}\n\n    #[derive(Clone, Copy)]\npub union Scalar {\n        groups: ScalarGroups,\n        /// 1\n        elements: [f32; 1],\n    }\n\n    impl Scalar {\n"
    ));
    assert!(text.contains("        pub const fn new(scalar: f32) -> Self {\n            Self { elements: [scalar] }\n        }\n"));
    assert!(text.contains("    const SCALAR_INDEX_REMAP: [usize; 1] = [0];\n\n"));
    assert!(text.ends_with(
        "            formatter\n                .debug_struct(\"Scalar\")\n                .field(\"1\", &self[0])\n                .finish()\n        }\n    }\n\n"
    ));
}

#[test]
fn classes_that_cannot_be_laid_out_are_refused() {
    let hollow = class("Hollow", &[&[(1, 0)], &[]]);
    let cancelled = class("Cancelled", &[&[(1, 0), (0, 3)]]);
    let sound = class("Sound", &[&[(1, 0), (-1, 3)]]);
    for refused in [&hollow, &cancelled] {
        let mut text = String::from("before");
        assert_eq!(emit_class_definition(&mut text, refused, 0), Err(Malformed));
        assert_eq!(text, "before");
        assert_eq!(rust_code(&AstNode::ClassDefinition { class: refused }, 0), Err(Malformed));
    }
    let mut text = String::from("before");
    assert_eq!(emit_class_definition(&mut text, &sound, usize::MAX - 2), Err(Malformed));
    assert_eq!(text, "before");
    assert_eq!(emit_class_definition(&mut text, &sound, 0), Ok(()));
    assert!(text.starts_with("before#[derive(Clone, Copy)]\nstruct SoundGroups {\n"));
    assert!(glsl_code(&AstNode::ClassDefinition { class: &cancelled }, 0).is_ok());
    assert_eq!(
        glsl_code(&AstNode::ClassDefinition { class: &sound }, usize::MAX),
        Err(Malformed)
    );
}

#[test]
fn statements_are_written() {
    let returned = AstNode::ReturnStatement { expression: Box::new(var("x", 1)) };
    assert_eq!(glsl_code(&returned, 3).unwrap(), "return x;\n");
    assert_eq!(rust_code(&returned, 3).unwrap(), "return x;\n");
    let declared = AstNode::VariableAssignment {
        name: "a",
        data_type: Some(DataType::SimdVector(4)),
        expression: Box::new(var("x", 4)),
    };
    assert_eq!(glsl_code(&declared, 0).unwrap(), "vec4 a = x;\n");
    assert_eq!(rust_code(&declared, 0).unwrap(), "let mut a: Simd32x4 = x;\n");
    let assigned =
        AstNode::VariableAssignment { name: "a", data_type: None, expression: Box::new(var("x", 4)) };
    assert_eq!(glsl_code(&assigned, 0).unwrap(), "a = x;\n");
    assert_eq!(rust_code(&assigned, 0).unwrap(), "a = x;\n");
    assert_eq!(glsl_code(&AstNode::Empty, 0).unwrap(), "");
    assert_eq!(rust_code(&AstNode::Empty, 0).unwrap(), "");
    assert_eq!(glsl_code(&AstNode::Preamble, 0).unwrap(), "");
    assert_eq!(
        rust_code(&AstNode::Preamble, 0).unwrap(),
        "#![allow(clippy::assign_op_pattern)]\nuse crate::{simd::*, *};\nuse std::ops::{Add, AddAssign, Div, DivAssign, Mul, MulAssign, Neg, Sub, SubAssign};\n\n"
    );
}

fn counting_loop<'a>() -> AstNode<'a> {
    let step = AstNode::VariableAssignment {
        name: "n",
        data_type: None,
        expression: Box::new(Expression {
            size: 1,
            content: ExpressionContent::BitShiftRight(
                Box::new(var("n", 1)),
                Box::new(Expression {
                    size: 1,
                    content: ExpressionContent::Constant(DataType::Integer, vec![1]),
                }),
            ),
        }),
    };
    let inner = AstNode::IfThenBlock {
        condition: Box::new(Expression {
            size: 1,
            content: ExpressionContent::Equal(
                Box::new(Expression {
                    size: 1,
                    content: ExpressionContent::LogicAnd(
                        Box::new(var("n", 1)),
                        Box::new(Expression {
                            size: 1,
                            content: ExpressionContent::Constant(DataType::Integer, vec![1]),
                        }),
                    ),
                }),
                Box::new(Expression {
                    size: 1,
                    content: ExpressionContent::Constant(DataType::Integer, vec![1]),
                }),
            ),
        }),
        body: vec![AstNode::VariableAssignment {
            name: "y",
            data_type: None,
            expression: Box::new(var("x", 1)),
        }],
    };
    AstNode::WhileLoopBlock {
        condition: Box::new(Expression {
            size: 1,
            content: ExpressionContent::LessThan(
                Box::new(Expression {
                    size: 1,
                    content: ExpressionContent::Constant(DataType::Integer, vec![0]),
                }),
                Box::new(var("n", 1)),
            ),
        }),
        body: vec![inner, step],
    }
}

#[test]
fn blocks_indent_their_statements() {
    let block = counting_loop();
    assert_eq!(
        glsl_code(&block, 1).unwrap(),
        lines(&[
            "while(0 < n) {",
            "        if((n & 1) == 1) {",
            "            y = x;",
            "        }",
            "        n = n >> 1;",
            "    }",
        ])
    );
    assert_eq!(
        rust_code(&block, 1).unwrap(),
        lines(&[
            "while 0 < n {",
            "        if n & 1 == 1 {",
            "            y = x;",
            "        }",
            "        n = n >> 1;",
            "    }",
        ])
    );
    let empty = AstNode::IfThenBlock { condition: Box::new(var("c", 1)), body: vec![] };
    assert_eq!(glsl_code(&empty, 0).unwrap(), "if(c) {\n}\n");
    assert_eq!(rust_code(&empty, 0).unwrap(), "if c {\n}\n");
    assert_eq!(glsl_code(&empty, usize::MAX), Err(Malformed));
    assert_eq!(rust_code(&empty, usize::MAX), Err(Malformed));
}

#[test]
fn a_block_with_a_statement_that_cannot_be_written_is_refused() {
    let broken = AstNode::WhileLoopBlock {
        condition: Box::new(var("c", 1)),
        body: vec![
            AstNode::Empty,
            AstNode::ReturnStatement {
                expression: Box::new(Expression { size: 1, content: ExpressionContent::Empty }),
            },
        ],
    };
    assert_eq!(glsl_code(&broken, 0), Err(Malformed));
    assert_eq!(rust_code(&broken, 0), Err(Malformed));
    let condition = AstNode::IfThenBlock {
        condition: Box::new(Expression { size: 1, content: ExpressionContent::Empty }),
        body: vec![],
    };
    assert_eq!(glsl_code(&condition, 0), Err(Malformed));
    assert_eq!(rust_code(&condition, 0), Err(Malformed));
}

fn implementation<'a>(
    name: &'static str,
    result: DataType<'a>,
    parameters: Vec<Parameter<'a>>,
) -> AstNode<'a> {
    AstNode::TraitImplementation {
        result: Parameter { name, data_type: result },
        parameters,
        body: vec![AstNode::ReturnStatement { expression: Box::new(var("x", 1)) }],
    }
}

#[test]
fn operations_of_two_classes_are_implemented() {
    let motor = motor();
    let point = point();
    let node = implementation(
        "GeometricProduct",
        DataType::MultiVector(&motor),
        vec![
            Parameter { name: "self", data_type: DataType::MultiVector(&motor) },
            Parameter { name: "other", data_type: DataType::MultiVector(&point) },
        ],
    );
    assert_eq!(
        glsl_code(&node, 0).unwrap(),
        "Motor motor_point_geometric_product(Motor self, Point other) {\n    return x;\n}\n\n"
    );
    assert_eq!(
        rust_code(&node, 0).unwrap(),
        lines(&[
            "impl GeometricProduct<Point> for Motor {",
            "    type Output = Motor;",
            "",
            "    fn geometric_product(self, other: Point) -> Motor {",
            "        x",
            "    }",
            "}",
            "",
        ])
    );
}

#[test]
fn operations_of_one_class_are_implemented() {
    let motor = motor();
    let point = point();
    let receiver = Parameter { name: "self", data_type: DataType::MultiVector(&motor) };
    let constant = implementation("Zero", DataType::MultiVector(&motor), vec![]);
    assert_eq!(glsl_code(&constant, 0).unwrap(), "Motor motor_zero() {\n    return x;\n}\n\n");
    assert_eq!(
        rust_code(&constant, 0).unwrap(),
        "impl Zero for Motor {\n    fn zero() -> Self {\n        x\n    }\n}\n\n"
    );
    let involution = implementation("Reversal", DataType::MultiVector(&motor), vec![receiver]);
    assert_eq!(
        glsl_code(&involution, 0).unwrap(),
        "Motor motor_reversal(Motor self) {\n    return x;\n}\n\n"
    );
    assert_eq!(
        rust_code(&involution, 0).unwrap(),
        "impl Reversal for Motor {\n    type Output = Motor;\n\n    fn reversal(self) -> Motor {\n        x\n    }\n}\n\n"
    );
    let conversion = implementation("Into", DataType::MultiVector(&point), vec![receiver]);
    assert_eq!(
        glsl_code(&conversion, 0).unwrap(),
        "Point motor_point_into(Motor self) {\n    return x;\n}\n\n"
    );
    assert_eq!(
        rust_code(&conversion, 0).unwrap(),
        "impl Into<Point> for Motor {\n    fn into(self) -> Point {\n        x\n    }\n}\n\n"
    );
    let power = implementation(
        "Powi",
        DataType::MultiVector(&motor),
        vec![receiver, Parameter { name: "exponent", data_type: DataType::Integer }],
    );
    assert_eq!(
        glsl_code(&power, 0).unwrap(),
        "Motor motor_powi(Motor self, int exponent) {\n    return x;\n}\n\n"
    );
    assert_eq!(
        rust_code(&power, 0).unwrap(),
        "impl Powi for Motor {\n    type Output = Motor;\n\n    fn powi(self, exponent: isize) -> Motor {\n        x\n    }\n}\n\n"
    );
}

#[test]
fn arithmetic_on_one_class_also_assigns() {
    let motor = motor();
    let twin = class("Motor", &[&[(1, 0), (1, 6)], &[(1, 3), (1, 5)]]);
    let point = point();
    let parameters = vec![
        Parameter { name: "self", data_type: DataType::MultiVector(&motor) },
        Parameter { name: "other", data_type: DataType::MultiVector(&point) },
    ];
    for (name, method) in [("Add", "add"), ("Sub", "sub"), ("Mul", "mul"), ("Div", "div")] {
        let node = implementation(name, DataType::MultiVector(&twin), parameters.clone());
        assert_eq!(
            rust_code(&node, 0).unwrap(),
            format!(
                "impl {name}<Point> for Motor {{\n    type Output = Motor;\n\n    fn {method}(self, other: Point) -> Motor {{\n        x\n    }}\n}}\n\nimpl {name}Assign<Point> for Motor {{\n    fn {method}_assign(&mut self, other: Point) {{\n        *self = (*self).{method}(other);\n    }}\n}}\n\n"
            )
        );
        assert_eq!(
            glsl_code(&node, 0).unwrap(),
            format!("Motor motor_point_{method}(Motor self, Point other) {{\n    return x;\n}}\n\n")
        );
    }
    let other_result = implementation("Add", DataType::MultiVector(&point), parameters.clone());
    assert_eq!(
        rust_code(&other_result, 0).unwrap(),
        "impl Add<Point> for Motor {\n    type Output = Point;\n\n    fn add(self, other: Point) -> Point {\n        x\n    }\n}\n\n"
    );
    let not_arithmetic =
        implementation("OuterProduct", DataType::MultiVector(&motor), parameters.clone());
    assert!(!rust_code(&not_arithmetic, 0).unwrap().contains("Assign"));
}

#[test]
fn the_assigning_trait_needs_its_classes() {
    let motor = motor();
    let point = point();
    let receiver = Parameter { name: "self", data_type: DataType::MultiVector(&motor) };
    let number = Parameter { name: "other", data_type: DataType::SimdVector(1) };
    let result = Parameter { name: "Mul", data_type: DataType::MultiVector(&motor) };
    let mut text = String::from("before");
    assert_eq!(rust::emit_assign_trait(&mut text, &result, &vec![]), Err(Malformed));
    assert_eq!(rust::emit_assign_trait(&mut text, &result, &vec![receiver]), Err(Malformed));
    assert_eq!(rust::emit_assign_trait(&mut text, &result, &vec![receiver, number]), Err(Malformed));
    assert_eq!(rust::emit_assign_trait(&mut text, &result, &vec![number, receiver]), Err(Malformed));
    let plain = Parameter { name: "Mul", data_type: DataType::Integer };
    assert_eq!(rust::emit_assign_trait(&mut text, &plain, &vec![receiver, receiver]), Err(Malformed));
    assert_eq!(text, "before");
    let elsewhere = Parameter { name: "Mul", data_type: DataType::MultiVector(&point) };
    assert_eq!(rust::emit_assign_trait(&mut text, &elsewhere, &vec![receiver]), Ok(()));
    assert_eq!(text, "before");
    assert_eq!(rust::emit_assign_trait(&mut text, &result, &vec![receiver, receiver]), Ok(()));
    assert_eq!(
        text,
        "beforeimpl MulAssign<Motor> for Motor {\n    fn mul_assign(&mut self, other: Motor) {\n        *self = (*self).mul(other);\n    }\n}\n\n"
    );
    let scaled = implementation("Mul", DataType::MultiVector(&motor), vec![receiver, number]);
    assert_eq!(rust_code(&scaled, 0), Err(Malformed));
    assert!(glsl_code(&scaled, 0).is_ok());
}

#[test]
fn functions_that_cannot_be_named_are_refused() {
    let motor = motor();
    let receiver = Parameter { name: "self", data_type: DataType::MultiVector(&motor) };
    let number = Parameter { name: "other", data_type: DataType::SimdVector(1) };
    let cases = [
        implementation("Dual", DataType::SimdVector(1), vec![receiver]),
        implementation("Dual", DataType::MultiVector(&motor), vec![number]),
        implementation("Dual", DataType::MultiVector(&motor), vec![receiver, receiver, receiver]),
        implementation("Zero", DataType::Integer, vec![]),
    ];
    for node in cases.iter() {
        assert_eq!(glsl_code(node, 0), Err(Malformed));
        assert_eq!(rust_code(node, 0), Err(Malformed));
    }
    let sound = implementation("Dual", DataType::MultiVector(&motor), vec![receiver]);
    assert_eq!(rust_code(&sound, usize::MAX - 1), Err(Malformed));
    assert_eq!(glsl_code(&sound, usize::MAX), Err(Malformed));
}

#[test]
fn only_a_return_that_stands_last_is_an_expression() {
    let motor = motor();
    let receiver = Parameter { name: "self", data_type: DataType::MultiVector(&motor) };
    let node = AstNode::TraitImplementation {
        result: Parameter { name: "Powi", data_type: DataType::MultiVector(&motor) },
        parameters: vec![receiver, Parameter { name: "exponent", data_type: DataType::Integer }],
        body: vec![
            AstNode::IfThenBlock {
                condition: Box::new(var("c", 1)),
                body: vec![AstNode::ReturnStatement { expression: Box::new(var("a", 1)) }],
            },
            AstNode::ReturnStatement { expression: Box::new(var("b", 1)) },
            AstNode::VariableAssignment {
                name: "x",
                data_type: Some(DataType::MultiVector(&motor)),
                expression: Box::new(var("self", 1)),
            },
            counting_loop(),
            AstNode::ReturnStatement { expression: Box::new(var("y", 1)) },
        ],
    };
    assert_eq!(
        rust_code(&node, 0).unwrap(),
        lines(&[
            "impl Powi for Motor {",
            "    type Output = Motor;",
            "",
            "    fn powi(self, exponent: isize) -> Motor {",
            "        if c {",
            "            return a;",
            "        }",
            "        return b;",
            "        let mut x: Motor = self;",
            "        while 0 < n {",
            "            if n & 1 == 1 {",
            "                y = x;",
            "            }",
            "            n = n >> 1;",
            "        }",
            "        y",
            "    }",
            "}",
            "",
        ])
    );
    assert_eq!(
        glsl_code(&node, 0).unwrap(),
        lines(&[
            "Motor motor_powi(Motor self, int exponent) {",
            "    if(c) {",
            "        return a;",
            "    }",
            "    return b;",
            "    Motor x = self;",
            "    while(0 < n) {",
            "        if((n & 1) == 1) {",
            "            y = x;",
            "        }",
            "        n = n >> 1;",
            "    }",
            "    return y;",
            "}",
            "",
        ])
    );
    let without = AstNode::TraitImplementation {
        result: Parameter { name: "Zero", data_type: DataType::MultiVector(&motor) },
        parameters: vec![],
        body: vec![],
    };
    assert_eq!(rust_code(&without, 0).unwrap(), "impl Zero for Motor {\n    fn zero() -> Self {\n    }\n}\n\n");
    assert_eq!(glsl_code(&without, 0).unwrap(), "Motor motor_zero() {\n}\n\n");
}

#[test]
fn the_emitter_writes_both_dialects_or_neither() {
    let motor = motor();
    let mut emitter = Emitter::new();
    assert_eq!(emitter.rust_collector, "");
    assert_eq!(emitter.glsl_collector, "");
    assert_eq!(emitter.emit(&AstNode::Preamble), Ok(()));
    assert!(emitter.rust_collector.starts_with("#![allow("));
    assert_eq!(emitter.glsl_collector, "");
    let involution = implementation(
        "Dual",
        DataType::MultiVector(&motor),
        vec![Parameter { name: "self", data_type: DataType::MultiVector(&motor) }],
    );
    assert_eq!(emitter.emit(&involution), Ok(()));
    assert!(emitter.rust_collector.ends_with(
        "SubAssign};\n\nimpl Dual for Motor {\n    type Output = Motor;\n\n    fn dual(self) -> Motor {\n        x\n    }\n}\n\n"
    ));
    assert_eq!(emitter.glsl_collector, "Motor motor_dual(Motor self) {\n    return x;\n}\n\n");
    let rust_before = emitter.rust_collector.clone();
    let glsl_before = emitter.glsl_collector.clone();
    let shader_only = AstNode::ClassDefinition { class: &class("Cancelled", &[&[(0, 3)]]) };
    assert_eq!(emitter.emit(&shader_only), Err(Malformed));
    let systems_only = AstNode::ReturnStatement {
        expression: Box::new(Expression {
            size: 1,
            content: ExpressionContent::Swizzle(Box::new(var("x", 8)), vec![5]),
        }),
    };
    assert_eq!(emitter.emit(&systems_only), Err(Malformed));
    assert_eq!(emitter.rust_collector, rust_before);
    assert_eq!(emitter.glsl_collector, glsl_before);
}

#[test]
fn everything_that_is_generated_can_be_written() {
    let squares: [isize; 3] = [0, 1, 1];
    let algebra = GeometricAlgebra { generator_squares: &squares };
    let mut registry = MultiVectorClassRegistry::default();
    let descriptions: [(&str, &[&[&str]]); 8] = [
        ("Scalar", &[&["1"]]),
        ("MultiVector", &[&["1", "e12", "e1", "e2"], &["e0", "e012", "e01", "-e02"]]),
        ("Rotor", &[&["1", "e12"]]),
        ("Point", &[&["e12", "e01", "-e02"]]),
        ("IdealPoint", &[&["e01", "-e02"]]),
        ("Plane", &[&["e0", "e2", "e1"]]),
        ("Translator", &[&["1", "e01", "-e02"]]),
        ("Motor", &[&["1", "e12", "e01", "-e02"]]),
    ];
    for (name, groups) in descriptions.iter() {
        registry.register(MultiVectorClass {
            class_name: (*name).to_owned(),
            grouped_basis: groups
                .iter()
                .map(|group| {
                    group.iter().map(|name| BasisElement::parse(name, &algebra).unwrap()).collect()
                })
                .collect(),
        });
    }
    let generated = generate(&algebra, &registry);
    let mut emitter = Emitter::new();
    let mut count = 0;
    for node in generated.emission_order() {
        assert_eq!(emitter.emit(node), Ok(()), "{:?}", node);
        count += 1;
    }
    assert!(count > 100);
    let rust_text = &emitter.rust_collector;
    let glsl_text = &emitter.glsl_collector;
    assert!(rust_text.starts_with("#![allow(clippy::assign_op_pattern)]\n"));
    assert!(glsl_text.starts_with("struct Scalar {\n    // 1\n    float g0;\n};\n\n"));
    assert!(rust_text.contains("const MULTIVECTOR_INDEX_REMAP: [usize; 8] = [0, 1, 2, 3, 4, 5, 6, 7];\n"));
    assert!(rust_text.contains("impl GeometricProduct<Point> for Motor {\n    type Output = Motor;\n\n    fn geometric_product(self, other: Point) -> Motor {\n"));
    assert!(rust_text.contains("impl Zero for Point {\n    fn zero() -> Self {\n        Point { groups: PointGroups { g0: Simd32x3::from(0.0) } }\n    }\n}\n\n"));
    assert!(rust_text.contains("impl One for Rotor {\n    fn one() -> Self {\n        Rotor { groups: RotorGroups { g0: Simd32x2::from([1.0, 0.0]) } }\n    }\n}\n\n"));
    assert!(glsl_text.contains("Rotor rotor_one() {\n    return Rotor(vec2(1.0, 0.0));\n}\n\n"));
    assert!(glsl_text.contains("Motor motor_point_geometric_product(Motor self, Point other) {\n    return Motor("));
    assert!(rust_text.contains("impl Transformation<Point> for Motor {\n    type Output = Point;\n\n    fn transformation(self, other: Point) -> Point {\n        self.geometric_product(other).geometric_product(self.reversal()).into()\n    }\n}\n\n"));
    assert!(glsl_text.contains("Point motor_point_transformation(Motor self, Point other) {\n    return motor_point_into(motor_motor_geometric_product(motor_point_geometric_product(self, other), motor_reversal(self)));\n}\n\n"));
}

#[test]
fn what_cannot_be_written_leaves_the_text_as_it_was() {
    let motor = motor();
    let late = Expression {
        size: 1,
        content: ExpressionContent::Add(
            Box::new(var("a", 1)),
            Box::new(Expression { size: 1, content: ExpressionContent::Empty }),
        ),
    };
    let mut text = String::from("before");
    assert_eq!(glsl::emit_expression(&mut text, &late), Err(Malformed));
    assert_eq!(rust::emit_expression(&mut text, &late), Err(Malformed));
    assert_eq!(text, "before");
    let node = AstNode::TraitImplementation {
        result: Parameter { name: "Dual", data_type: DataType::MultiVector(&motor) },
        parameters: vec![Parameter { name: "self", data_type: DataType::MultiVector(&motor) }],
        body: vec![
            AstNode::VariableAssignment {
                name: "a",
                data_type: None,
                expression: Box::new(var("x", 1)),
            },
            AstNode::ReturnStatement { expression: Box::new(late) },
        ],
    };
    assert_eq!(glsl::emit_code(&mut text, &node, 0), Err(Malformed));
    assert_eq!(rust::emit_code(&mut text, &node, 0), Err(Malformed));
    assert_eq!(text, "before");
    assert_eq!(glsl::emit_code(&mut text, &AstNode::Empty, 0), Ok(()));
    assert_eq!(text, "before");
    let returned = AstNode::ReturnStatement { expression: Box::new(var("x", 1)) };
    assert_eq!(glsl::emit_code(&mut text, &returned, 0), Ok(()));
    assert_eq!(rust::emit_code(&mut text, &returned, 0), Ok(()));
    assert_eq!(text, "beforereturn x;\nreturn x;\n");
}
