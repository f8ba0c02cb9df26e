use geometric_algebra::algebra::{sort_elements, BasisElement, GeometricAlgebra};
use std::cmp::Ordering;

fn element(scalar: isize, index: u16) -> BasisElement {
    BasisElement { scalar, index }
}

fn signatures() -> Vec<Vec<isize>> {
    vec![
        vec![],
        vec![1],
        vec![-1],
        vec![1, 1],
        vec![0, 1, 1],
        vec![1, 1, 1],
        vec![-1, 0, 1],
        vec![0, 1, 1, 1],
    ]
}

/// The product by bringing the generators into order one swap at a time.
fn product_by_swaps(a: &BasisElement, b: &BasisElement, squares: &[isize]) -> BasisElement {
    let mut generators: Vec<usize> = Vec::new();
    for i in 0..16 {
        if (a.index >> i) & 1 == 1 {
            generators.push(i);
        }
    }
    for i in 0..16 {
        if (b.index >> i) & 1 == 1 {
            generators.push(i);
        }
    }
    let mut scalar = a.scalar * b.scalar;
    let mut changed = true;
    while changed {
        changed = false;
        let mut i = 0;
        while i + 1 < generators.len() {
            if generators[i] > generators[i + 1] {
                generators.swap(i, i + 1);
                scalar = -scalar;
                changed = true;
            } else if generators[i] == generators[i + 1] {
                scalar *= squares[generators[i]];
                generators.remove(i);
                generators.remove(i);
                changed = true;
            }
            i += 1;
        }
    }
    let mut index = 0u16;
    for generator in generators {
        index |= 1 << generator;
    }
    BasisElement { scalar, index }
}

#[test]
fn basis_size_is_two_to_the_dimension() {
    let squares = [1isize, 1, 1];
    let algebra = GeometricAlgebra { generator_squares: &squares };
    assert_eq!(algebra.basis_size(), 8);
    let none: [isize; 0] = [];
    assert_eq!(GeometricAlgebra { generator_squares: &none }.basis_size(), 1);
    let fifteen = [1isize; 15];
    assert_eq!(GeometricAlgebra { generator_squares: &fifteen }.basis_size(), 32768);
}

#[test]
fn from_index_is_positive() {
    assert_eq!(BasisElement::from_index(5), element(1, 5));
    assert_eq!(BasisElement::from_index(0), element(1, 0));
}

#[test]
fn grade_counts_generators() {
    assert_eq!(element(1, 0).grade(), 0);
    assert_eq!(element(-1, 1).grade(), 1);
    assert_eq!(element(1, 0b1011).grade(), 3);
    assert_eq!(element(1, 0xFFFF).grade(), 16);
    assert_eq!(element(1, 0x8000).grade(), 1);
}

#[test]
fn component_bits_ascend() {
    assert_eq!(element(1, 0).component_bits(), Vec::<usize>::new());
    assert_eq!(element(1, 0b1011).component_bits(), vec![0, 1, 3]);
    assert_eq!(element(1, 0x8001).component_bits(), vec![0, 15]);
}

#[test]
fn product_of_two_vectors() {
    let squares = [1isize, 1];
    let algebra = GeometricAlgebra { generator_squares: &squares };
    let e0 = BasisElement::from_index(1);
    let e1 = BasisElement::from_index(2);
    assert_eq!(BasisElement::product(&e0, &e1, &algebra), element(1, 3));
    assert_eq!(BasisElement::product(&e1, &e0, &algebra), element(-1, 3));
    assert_eq!(BasisElement::product(&e0, &e0, &algebra), element(1, 0));
}

#[test]
fn product_uses_the_squares_of_shared_generators() {
    let squares = [0isize, 1, -1];
    let algebra = GeometricAlgebra { generator_squares: &squares };
    let e0 = element(1, 1);
    let e1 = element(1, 2);
    let e2 = element(1, 4);
    let e12 = element(1, 6);
    assert_eq!(BasisElement::product(&e0, &e0, &algebra), element(0, 0));
    assert_eq!(BasisElement::product(&e1, &e1, &algebra), element(1, 0));
    assert_eq!(BasisElement::product(&e2, &e2, &algebra), element(-1, 0));
    // e12 e12 = e1 e2 e1 e2 = -e1 e1 e2 e2 = -(1)(-1) = 1
    assert_eq!(BasisElement::product(&e12, &e12, &algebra), element(1, 0));
    // the scalar is the identity on either side
    let one = element(1, 0);
    assert_eq!(BasisElement::product(&one, &e12, &algebra), e12);
    assert_eq!(BasisElement::product(&e12, &one, &algebra), e12);
    // signs of the factors multiply
    assert_eq!(BasisElement::product(&element(-1, 2), &element(-1, 4), &algebra), e12);
    assert_eq!(BasisElement::product(&element(-1, 2), &e2, &algebra), element(-1, 6));
    assert_eq!(BasisElement::product(&element(0, 2), &e2, &algebra), element(0, 6));
}

#[test]
fn product_agrees_with_sorting_the_generators() {
    for squares in signatures() {
        let algebra = GeometricAlgebra { generator_squares: &squares };
        let size = algebra.basis_size() as u16;
        for a in 0..size {
            for b in 0..size {
                for sign in [-1isize, 1] {
                    let left = element(sign, a);
                    let right = element(1, b);
                    assert_eq!(
                        BasisElement::product(&left, &right, &algebra),
                        product_by_swaps(&left, &right, &squares),
                        "{:?} * {:?} in {:?}",
                        left,
                        right,
                        squares
                    );
                }
            }
        }
    }
}

#[test]
fn product_is_associative() {
    for squares in signatures() {
        let algebra = GeometricAlgebra { generator_squares: &squares };
        let size = algebra.basis_size() as u16;
        for a in 0..size {
            for b in 0..size {
                for c in 0..size {
                    let (x, y, z) = (element(1, a), element(-1, b), element(1, c));
                    let left = BasisElement::product(
                        &BasisElement::product(&x, &y, &algebra),
                        &z,
                        &algebra,
                    );
                    let right = BasisElement::product(
                        &x,
                        &BasisElement::product(&y, &z, &algebra),
                        &algebra,
                    );
                    assert_eq!(left, right);
                }
            }
        }
    }
}

#[test]
fn dual_is_the_signed_complement() {
    let squares = [1isize, 1, 1];
    let algebra = GeometricAlgebra { generator_squares: &squares };
    assert_eq!(element(1, 0).dual(&algebra), element(1, 7));
    assert_eq!(element(1, 7).dual(&algebra), element(1, 0));
    // e1 e02 = -e012, so the dual of e1 is -e02
    assert_eq!(element(1, 2).dual(&algebra), element(-1, 5));
    assert_eq!(element(-1, 2).dual(&algebra), element(1, 5));
    assert_eq!(element(0, 2).dual(&algebra), element(0, 5));
}

#[test]
fn element_times_dual_is_the_pseudoscalar() {
    for squares in signatures() {
        let algebra = GeometricAlgebra { generator_squares: &squares };
        let size = algebra.basis_size() as u16;
        for index in 0..size {
            for sign in [-1isize, 1] {
                let x = element(sign, index);
                let dual = x.dual(&algebra);
                assert_eq!(dual.index, size - 1 - index);
                assert_eq!(BasisElement::product(&x, &dual, &algebra), element(1, size - 1));
            }
        }
    }
}

#[test]
fn dual_twice_gives_the_element_up_to_sign() {
    for squares in signatures() {
        let algebra = GeometricAlgebra { generator_squares: &squares };
        let size = algebra.basis_size() as u16;
        for index in 0..size {
            let x = element(1, index);
            let twice = x.dual(&algebra).dual(&algebra);
            assert_eq!(twice.index, x.index);
            let flipped = squares.len() % 2 == 0 && x.grade() % 2 == 1;
            assert_eq!(twice.scalar, if flipped { -1 } else { 1 });
        }
    }
    // in two dimensions the sign differs between elements of one algebra
    let squares = [1isize, 1];
    let algebra = GeometricAlgebra { generator_squares: &squares };
    assert_eq!(element(1, 1).dual(&algebra).dual(&algebra), element(-1, 1));
    assert_eq!(element(1, 0).dual(&algebra).dual(&algebra), element(1, 0));
}

#[test]
fn order_is_by_grade_then_lowest_generator() {
    let vector = element(1, 0b100);
    let bivector = element(1, 0b011);
    assert!(vector.precedes(&bivector));
    assert!(!bivector.precedes(&vector));
    // e0 before e1 before e2
    assert!(element(1, 1).precedes(&element(1, 2)));
    assert!(element(1, 2).precedes(&element(1, 4)));
    assert!(!element(1, 4).precedes(&element(1, 1)));
    // e01 before e02 before e12: the lowest generator in which they differ decides
    assert!(element(1, 0b011).precedes(&element(1, 0b101)));
    assert!(element(1, 0b101).precedes(&element(1, 0b110)));
    assert!(element(1, 0b011).precedes(&element(1, 0b110)));
    // the sign plays no part, and no element comes before itself
    assert!(element(-1, 1).precedes(&element(1, 2)));
    assert!(!element(1, 5).precedes(&element(-1, 5)));
}

#[test]
fn cmp_is_less_equal_or_greater() {
    assert_eq!(element(1, 1).cmp(&element(1, 2)), Ordering::Less);
    assert_eq!(element(1, 2).cmp(&element(1, 1)), Ordering::Greater);
    assert_eq!(element(1, 7).cmp(&element(1, 8)), Ordering::Greater);
    assert_eq!(element(1, 8).cmp(&element(1, 7)), Ordering::Less);
    assert_eq!(element(1, 3).cmp(&element(-1, 5)), Ordering::Less);
    assert_eq!(element(-1, 5).cmp(&element(1, 3)), Ordering::Greater);
}

#[test]
fn cmp_of_elements_with_one_index_is_equal() {
    assert_eq!(element(1, 2).cmp(&element(1, 2)), Ordering::Equal);
    assert_eq!(element(1, 0).cmp(&element(1, 0)), Ordering::Equal);
    assert_eq!(element(1, 5).cmp(&element(-1, 5)), Ordering::Equal);
    assert_eq!(element(-1, 5).cmp(&element(1, 5)), Ordering::Equal);
    assert_eq!(element(0, 7).cmp(&element(1, 7)), Ordering::Equal);
    for index in 0..64u16 {
        for other in 0..64u16 {
            let answer = element(1, index).cmp(&element(-1, other));
            assert_eq!(answer == Ordering::Equal, index == other);
            assert_eq!(answer == Ordering::Less, element(1, index).precedes(&element(1, other)));
            assert_eq!(answer.reverse(), element(-1, other).cmp(&element(1, index)));
        }
    }
}

#[test]
fn basis_signs_follow_the_dual() {
    let squares = [1isize, 1, 1];
    let algebra = GeometricAlgebra { generator_squares: &squares };
    let basis = algebra.basis();
    assert_eq!(basis.len(), 8);
    for (index, element) in basis.iter().enumerate() {
        assert_eq!(element.index as usize, index);
    }
    // the lower half is positive
    assert_eq!(&basis[0..4], &[element(1, 0), element(1, 1), element(1, 2), element(1, 3)]);
    // e2 (4): dual is e01 (3), of higher grade, so e2 stays positive
    assert_eq!(basis[4], element(1, 4));
    // e02 (5): its dual e1 (2) comes first; e02 e1 = -e012, so e02 is taken negative
    assert_eq!(basis[5], element(-1, 5));
    assert_eq!(basis[6], element(1, 6));
    assert_eq!(basis[7], element(1, 7));
}

#[test]
fn sorted_basis_is_ordered() {
    let squares = [1isize, 1, 1];
    let algebra = GeometricAlgebra { generator_squares: &squares };
    let sorted = algebra.sorted_basis();
    let indices: Vec<u16> = sorted.iter().map(|element| element.index).collect();
    assert_eq!(indices, vec![0, 1, 2, 4, 3, 5, 6, 7]);
    assert_eq!(sorted[5], element(-1, 5));
    for squares in signatures() {
        let algebra = GeometricAlgebra { generator_squares: &squares };
        let sorted = algebra.sorted_basis();
        assert_eq!(sorted.len(), algebra.basis_size());
        for pair in sorted.windows(2) {
            assert!(pair[0].precedes(&pair[1]));
        }
        let mut indices: Vec<u16> = sorted.iter().map(|element| element.index).collect();
        indices.sort();
        assert_eq!(indices, (0..algebra.basis_size() as u16).collect::<Vec<_>>());
    }
}

#[test]
fn sort_elements_orders_any_distinct_elements() {
    let elements = vec![element(1, 7), element(-1, 4), element(1, 3), element(1, 0), element(-1, 1)];
    let sorted = sort_elements(&elements);
    assert_eq!(
        sorted,
        vec![element(1, 0), element(-1, 1), element(-1, 4), element(1, 3), element(1, 7)]
    );
    assert_eq!(sort_elements(&Vec::new()), Vec::new());
}

#[test]
fn elements_commute_or_anticommute() {
    for squares in signatures() {
        let algebra = GeometricAlgebra { generator_squares: &squares };
        let size = algebra.basis_size() as u16;
        for a in 0..size {
            for b in 0..size {
                let (x, y) = (element(1, a), element(-1, b));
                let forth = BasisElement::product(&x, &y, &algebra);
                let back = BasisElement::product(&y, &x, &algebra);
                let both_odd = x.grade() % 2 == 1 && y.grade() % 2 == 1;
                let shared_odd = (a & b).count_ones() % 2 == 1;
                let sign = if both_odd != shared_odd { -1 } else { 1 };
                assert_eq!(back, element(forth.scalar * sign, forth.index));
            }
        }
    }
    // two different generators anticommute, and a generator squares to its square
    let squares = [1isize, -1, 0];
    let algebra = GeometricAlgebra { generator_squares: &squares };
    for i in 0..3 {
        for j in 0..3 {
            let (x, y) = (element(1, 1 << i), element(1, 1 << j));
            let forth = BasisElement::product(&x, &y, &algebra);
            let back = BasisElement::product(&y, &x, &algebra);
            if i == j {
                assert_eq!(forth, element(squares[i], 0));
            } else {
                assert_eq!(back, element(-forth.scalar, forth.index));
                assert_ne!(forth.scalar, 0);
            }
        }
    }
}
