use geometric_algebra::algebra::{is_signature, BasisElement, GeometricAlgebra};
use geometric_algebra::class::MultiVectorClass;
use geometric_algebra::config::{
    parse_configuration, parse_integer, split_text, ConfigurationError,
};
use geometric_algebra::report::table_of;

fn element(scalar: isize, index: u16) -> BasisElement {
    BasisElement { scalar, index }
}

fn class(name: &str, groups: &[&[(isize, u16)]]) -> MultiVectorClass {
    MultiVectorClass {
        class_name: name.to_owned(),
        grouped_basis: groups
            .iter()
            .map(|group| group.iter().map(|(scalar, index)| element(*scalar, *index)).collect())
            .collect(),
    }
}

#[test]
fn texts_split_at_every_separator() {
    assert_eq!(split_text("a;b;c", ';'), vec!["a", "b", "c"]);
    assert_eq!(split_text("abc", ';'), vec!["abc"]);
    assert_eq!(split_text("", ';'), vec![""]);
    assert_eq!(split_text(";", ';'), vec!["", ""]);
    assert_eq!(split_text("a;;b;", ';'), vec!["a", "", "b", ""]);
    assert_eq!(split_text(";a", ';'), vec!["", "a"]);
    assert_eq!(split_text("1|e0,e1|e01", '|'), vec!["1", "e0,e1", "e01"]);
    assert_eq!(split_text("e0,e1", ','), vec!["e0", "e1"]);
    assert_eq!(split_text("é:ü", ':'), vec!["é", "ü"]);
    for text in ["", "a", "a,b", ",a,,b,", ",,,", "no separator", "x,y,z,"] {
        let expected: Vec<String> = text.split(',').map(|piece| piece.to_owned()).collect();
        assert_eq!(split_text(text, ','), expected);
    }
}

#[test]
fn whole_numbers_are_read() {
    assert_eq!(parse_integer("0"), Some(0));
    assert_eq!(parse_integer("1"), Some(1));
    assert_eq!(parse_integer("-1"), Some(-1));
    assert_eq!(parse_integer("+1"), Some(1));
    assert_eq!(parse_integer("-0"), Some(0));
    assert_eq!(parse_integer("12"), Some(12));
    assert_eq!(parse_integer("00012"), Some(12));
    assert_eq!(parse_integer("-4096"), Some(-4096));
    assert_eq!(parse_integer("1234567890"), Some(1234567890));
}

#[test]
fn what_is_no_whole_number_is_not_read() {
    for text in ["", "-", "+", "--1", "+-1", "1-", "1a", "a1", " 1", "1 ", "1.0", "e0", "١", "-+1"] {
        assert_eq!(parse_integer(text), None, "{:?}", text);
        assert!(text.parse::<isize>().is_err());
    }
}

#[test]
fn numbers_out_of_the_range_of_the_machine_are_not_read() {
    assert_eq!(parse_integer(&isize::MAX.to_string()), Some(isize::MAX));
    assert_eq!(parse_integer(&isize::MIN.to_string()), Some(isize::MIN));
    assert_eq!(parse_integer(&format!("+{}", isize::MAX)), Some(isize::MAX));
    let above = (isize::MAX as i128 + 1).to_string();
    let below = (isize::MIN as i128 - 1).to_string();
    assert_eq!(parse_integer(&above), None);
    assert_eq!(parse_integer(&below), None);
    assert_eq!(parse_integer("100000000000000000000000000000000000000000000000000"), None);
    assert_eq!(parse_integer("-100000000000000000000000000000000000000000000000000"), None);
    assert_eq!(parse_integer("100000000000000000000000000000000000000000000000000x"), None);
    assert_eq!(
        parse_integer(&format!("0000000000000000000000000000000000000000{}", isize::MAX)),
        Some(isize::MAX)
    );
}

#[test]
fn reading_numbers_agrees_with_the_standard_library() {
    let mut state: u64 = 7;
    let alphabet = ['0', '1', '2', '9', '-', '+', 'x', ' '];
    for _ in 0..2000 {
        let mut text = String::new();
        state = state.wrapping_mul(6364136223846793005).wrapping_add(1442695040888963407);
        let length = (state >> 60) as usize;
        for _ in 0..length {
            state = state.wrapping_mul(6364136223846793005).wrapping_add(1442695040888963407);
            text.push(alphabet[(state >> 61) as usize]);
        }
        assert_eq!(parse_integer(&text), text.parse::<isize>().ok(), "{:?}", text);
    }
}

#[test]
fn signatures_have_few_generators_of_unit_squares() {
    assert!(is_signature(&[]));
    assert!(is_signature(&[1, 1]));
    assert!(is_signature(&[0, 1, -1]));
    assert!(is_signature(&[1; 15]));
    assert!(!is_signature(&[1; 16]));
    assert!(!is_signature(&[2]));
    assert!(!is_signature(&[1, 0, -2]));
    assert!(!is_signature(&[isize::MIN]));
}

#[test]
fn classes_are_checked() {
    assert!(class("Scalar", &[&[(1, 0)]]).is_well_formed());
    assert!(class("MultiVector", &[&[(1, 0)], &[(1, 1), (-1, 2)], &[(1, 3)]]).is_well_formed());
    assert!(class("Cancelled", &[&[(0, 1)]]).is_well_formed());
    assert!(!class("Empty", &[]).is_well_formed());
    assert!(!class("Hollow", &[&[(1, 0)], &[]]).is_well_formed());
    assert!(!class("Twice", &[&[(1, 1), (1, 1)]]).is_well_formed());
    assert!(!class("TwiceSigned", &[&[(1, 1)], &[(1, 0), (-1, 1)]]).is_well_formed());
    assert!(!class("Doubled", &[&[(2, 1)]]).is_well_formed());
    assert!(!class("Doubled", &[&[(1, 0), (-2, 1)]]).is_well_formed());
}

#[test]
fn a_configuration_names_an_algebra_and_its_classes() {
    let configuration =
        parse_configuration("epga2d:1,1;Scalar:1;Vector:e0,e1;MultiVector:1|e0,e1|e01").unwrap();
    assert_eq!(configuration.algebra_name, "epga2d");
    assert_eq!(configuration.generator_squares, vec![1, 1]);
    assert_eq!(
        configuration.registry.classes,
        vec![
            class("Scalar", &[&[(1, 0)]]),
            class("Vector", &[&[(1, 1), (1, 2)]]),
            class("MultiVector", &[&[(1, 0)], &[(1, 1), (1, 2)], &[(1, 3)]]),
        ]
    );
    assert_eq!(configuration.registry.get(&[1, 2]).unwrap().class_name, "Vector");
    assert!(configuration.registry.get(&[0, 1]).is_none());
}

#[test]
fn a_configuration_records_signs() {
    let configuration = parse_configuration("ppga2d:0,1,1;Point:e12,-e02,e10;Line:-e21|e0;I:-1").unwrap();
    assert_eq!(configuration.algebra_name, "ppga2d");
    assert_eq!(configuration.generator_squares, vec![0, 1, 1]);
    assert_eq!(
        configuration.registry.classes,
        vec![
            class("Point", &[&[(1, 6), (-1, 5), (-1, 3)]]),
            class("Line", &[&[(1, 6)], &[(1, 1)]]),
            class("I", &[&[(-1, 0)]]),
        ]
    );
}

#[test]
fn an_algebra_needs_no_classes() {
    let configuration = parse_configuration("a:-1,0,+1").unwrap();
    assert_eq!(configuration.algebra_name, "a");
    assert_eq!(configuration.generator_squares, vec![-1, 0, 1]);
    assert!(configuration.registry.classes.is_empty());
    let unnamed = parse_configuration(":1").unwrap();
    assert_eq!(unnamed.algebra_name, "");
    assert_eq!(unnamed.generator_squares, vec![1]);
}

#[test]
fn what_stands_behind_a_second_colon_is_not_read() {
    let configuration = parse_configuration("a:1,1:2,x;Vector:e0,e1:e7|;:1").unwrap();
    assert_eq!(configuration.algebra_name, "a");
    assert_eq!(configuration.generator_squares, vec![1, 1]);
    assert_eq!(
        configuration.registry.classes,
        vec![class("Vector", &[&[(1, 1), (1, 2)]]), class("", &[&[(1, 0)]])]
    );
}

fn error_of(text: &str) -> ConfigurationError {
    match parse_configuration(text) {
        Ok(_) => panic!("{:?} is read", text),
        Err(error) => error,
    }
}

#[test]
fn what_is_no_configuration_is_refused() {
    assert_eq!(error_of(""), ConfigurationError::MissingSignature);
    assert_eq!(error_of("epga2d"), ConfigurationError::MissingSignature);
    assert_eq!(error_of("epga2d;Scalar:1"), ConfigurationError::MissingSignature);
    assert_eq!(error_of("a:"), ConfigurationError::BadNumber);
    assert_eq!(error_of("a:1,x"), ConfigurationError::BadNumber);
    assert_eq!(error_of("a:1,,1"), ConfigurationError::BadNumber);
    assert_eq!(error_of("a:1, 1"), ConfigurationError::BadNumber);
    assert_eq!(error_of("a:99999999999999999999999"), ConfigurationError::BadNumber);
    assert_eq!(error_of("a:2"), ConfigurationError::BadSignature);
    assert_eq!(error_of("a:1,-2,1"), ConfigurationError::BadSignature);
    assert_eq!(error_of("a:1,1,1,1,1,1,1,1,1,1,1,1,1,1,1,1"), ConfigurationError::BadSignature);
    assert!(parse_configuration("a:1,1,1,1,1,1,1,1,1,1,1,1,1,1,1").is_ok());
    assert_eq!(error_of("a:1,1;Vector"), ConfigurationError::MissingGroups);
    assert_eq!(error_of("a:1,1;"), ConfigurationError::MissingGroups);
    assert_eq!(error_of("a:1,1;Vector:e0,e1;"), ConfigurationError::MissingGroups);
    assert_eq!(error_of("a:1,1;Vector:e2"), ConfigurationError::UnknownElement);
    assert_eq!(error_of("a:1,1;Vector:"), ConfigurationError::UnknownElement);
    assert_eq!(error_of("a:1,1;Vector:e0,"), ConfigurationError::UnknownElement);
    assert_eq!(error_of("a:1,1;Vector:e0||e1"), ConfigurationError::UnknownElement);
    assert_eq!(error_of("a:1,1;Vector:e0, e1"), ConfigurationError::UnknownElement);
    assert_eq!(error_of("a:1,1;Vector:x"), ConfigurationError::UnknownElement);
    assert_eq!(error_of("a:1,1;Vector:e0,e0"), ConfigurationError::BadClass);
    assert_eq!(error_of("a:1,1;Vector:e0|e1,-e0"), ConfigurationError::BadClass);
    assert_eq!(error_of("a:1,1;Vector:e01|e10"), ConfigurationError::BadClass);
}

#[test]
fn the_first_mistake_decides() {
    assert_eq!(error_of("a:x;Vector"), ConfigurationError::BadNumber);
    assert_eq!(error_of("a:2;Vector:e9"), ConfigurationError::BadSignature);
    assert_eq!(error_of("a:1,1;V:e0,e0;W"), ConfigurationError::BadClass);
    assert_eq!(error_of("a:1,1;V;W:e0,e0"), ConfigurationError::MissingGroups);
    assert_eq!(error_of("a:1,1;V:e0;W:e3;X:e1,e1"), ConfigurationError::UnknownElement);
    assert_eq!(error_of("a:1,1;V:e0,e0|e5"), ConfigurationError::UnknownElement);
}

#[test]
fn two_classes_may_share_a_signature() {
    let configuration = parse_configuration("a:1,1;First:e0,e1;Second:e1|e0").unwrap();
    assert_eq!(configuration.registry.classes.len(), 2);
    assert_eq!(configuration.registry.get(&[1, 2]).unwrap().class_name, "Second");
}

#[test]
fn the_multiplication_table_of_the_plane() {
    let squares: [isize; 2] = [1, 1];
    let algebra = GeometricAlgebra { generator_squares: &squares };
    assert_eq!(
        algebra.multiplication_table(),
        "   1   e0  -e1  e01 \n  e0    1  e01  -e1 \n -e1 -e01    1  -e0 \n e01   e1   e0   -1 \n"
    );
}

#[test]
fn the_multiplication_table_of_the_smallest_algebras() {
    let none: [isize; 0] = [];
    assert_eq!(GeometricAlgebra { generator_squares: &none }.multiplication_table(), " 1 \n");
    let imaginary: [isize; 1] = [-1];
    assert_eq!(
        GeometricAlgebra { generator_squares: &imaginary }.multiplication_table(),
        "  1  e0 \n e0  -1 \n"
    );
    let dual: [isize; 1] = [0];
    assert_eq!(
        GeometricAlgebra { generator_squares: &dual }.multiplication_table(),
        "  1  e0 \n e0   0 \n"
    );
}

#[test]
fn the_multiplication_table_aligns_every_product() {
    for squares in [vec![0, 1, 1], vec![1, 1, 1, -1], vec![0, 1, 1, 1], vec![-1, -1, 0, 1, 1]] {
        let algebra = GeometricAlgebra { generator_squares: &squares };
        let basis = algebra.sorted_basis();
        let mut expected = String::new();
        for b in basis.iter() {
            for a in basis.iter() {
                expected.push_str(&format!(
                    "{:>1$} ",
                    BasisElement::product(a, b, &algebra).to_string(),
                    squares.len() + 2
                ));
            }
            expected.push('\n');
        }
        assert_eq!(algebra.multiplication_table(), expected);
        assert_eq!(table_of(&algebra, &basis), expected);
    }
    let squares: [isize; 2] = [1, 1];
    let algebra = GeometricAlgebra { generator_squares: &squares };
    assert_eq!(table_of(&algebra, &vec![]), "");
    assert_eq!(
        table_of(&algebra, &vec![element(-1, 3), element(1, 1)]),
        "  -1  -e1 \n  e1    1 \n"
    );
}
