//! The derivation driver: all operations of all classes, the primitive ones first and
//! then those derived from them.

use vstd::prelude::*;
use crate::algebra::{BasisElement, GeometricAlgebra};
use crate::ast::{AstNode, AstNodeView, DataType, DataTypeView, Parameter, ParameterView};
use crate::class::{MultiVectorClass, MultiVectorClassRegistry};
use crate::compile::{
    arguments_of, class_of, images_of, spec_class_constant, spec_element_wise, spec_involution,
};
use crate::contraction::{spec_product_operation, unit_terms};
use crate::derive::{
    result_of, spec_division, spec_inverse, spec_magnitude, spec_power_of_integer,
    spec_sandwich_product, spec_scale, spec_signum, spec_squared_magnitude,
};
use crate::involution::{involution_table, spec_involutions, valid_terms, Involution};
use crate::product::{spec_products, valid_product_terms, Product, ProductTerm};
use crate::tree::{result_of_trait, same_text, statements_view};

verus! {

/// The operations of one class with another: the conversion, the sums and the products.
pub struct PairOperations<'a> {
    pub parameter: Parameter<'a>,
    pub operations: Vec<(&'static str, AstNode<'a>)>,
}

/// The operations of one class: those of the class alone, those with each class of the
/// registry, and those derived from both. An operation that cannot be had is `Empty`.
pub struct ClassOperations<'a> {
    pub parameter: Parameter<'a>,
    pub single: Vec<(&'static str, AstNode<'a>)>,
    pub pairs: Vec<PairOperations<'a>>,
    pub derived: Vec<(&'static str, AstNode<'a>)>,
}

/// Operations under their names, as values.
pub type NamedViews = Seq<(Seq<char>, AstNodeView)>;

/// The values of a list of operations under their names.
pub open spec fn named_views(list: Seq<(&'static str, AstNode)>) -> NamedViews {
    Seq::new(list.len(), |i: int| (list[i].0@, list[i].1.view()))
}

/// The operation that a name finds: the last one under that name that is not `Empty`.
pub open spec fn find(list: NamedViews, name: Seq<char>) -> Option<AstNodeView>
    decreases list.len(),
{
    if list.len() == 0 {
        None
    } else if list.last().0 == name && !(list.last().1 is Empty) {
        Some(list.last().1)
    } else {
        find(list.drop_last(), name)
    }
}

/// Whether a node is an operation with a multivector as its result, or `Empty`.
pub open spec fn is_operation(node: AstNodeView) -> bool {
    node is Empty || (node is TraitImplementation && node->result.data_type is MultiVector)
}

/// Whether every node of the list is an operation or `Empty`.
pub open spec fn all_operations(list: NamedViews) -> bool {
    forall|i: int| 0 <= i < list.len() ==> is_operation((#[trigger] list[i]).1)
}

/// The parameter that stands for a multivector of a class.
pub open spec fn parameter_of(class: MultiVectorClass, name: Seq<char>) -> ParameterView {
    ParameterView { name, data_type: DataTypeView::MultiVector(class) }
}

/// The named tables of the involutions, as values.
pub open spec fn involution_views(involutions: Seq<(&'static str, Involution)>) -> Seq<
    (Seq<char>, Seq<(BasisElement, BasisElement)>),
> {
    Seq::new(involutions.len(), |i: int| (involutions[i].0@, involutions[i].1.terms@))
}

/// The named tables of the products, as values.
pub open spec fn product_views(products: Seq<(&'static str, Product)>) -> Seq<
    (Seq<char>, Seq<ProductTerm>),
> {
    Seq::new(products.len(), |i: int| (products[i].0@, products[i].1.terms@))
}

/// The operations of a class alone: the constants `Zero` and `One`, then the
/// involutions in their order.
pub open spec fn single_operations(
    class: MultiVectorClass,
    involutions: Seq<(Seq<char>, Seq<(BasisElement, BasisElement)>)>,
    registry: MultiVectorClassRegistry,
) -> NamedViews {
    seq![
        ("Zero"@, spec_class_constant(class, "Zero"@)),
        ("One"@, spec_class_constant(class, "One"@)),
    ] + involutions.map_values(
        |involution: (Seq<char>, Seq<(BasisElement, BasisElement)>)|
            (
                involution.0,
                spec_involution(
                    involution.0,
                    involution.1,
                    parameter_of(class, "self"@),
                    registry,
                    false,
                ),
            ),
    )
}

/// The operations of class `a` with class `b`: the conversion `Into` unless the two
/// are the same class, the sums `Add` and `Sub`, then the products in their order.
pub open spec fn pair_operations(
    a: MultiVectorClass,
    b: MultiVectorClass,
    same: bool,
    products: Seq<(Seq<char>, Seq<ProductTerm>)>,
    registry: MultiVectorClassRegistry,
) -> NamedViews {
    let left = parameter_of(a, "self"@);
    let right = parameter_of(b, "other"@);
    let conversion = if same {
        Seq::empty()
    } else {
        seq![
            (
                "Into"@,
                spec_involution(
                    "Into"@,
                    involution_table(b.spec_flat_basis(), |element: BasisElement| element),
                    left,
                    registry,
                    true,
                ),
            ),
        ]
    };
    conversion + seq![
        ("Add"@, spec_element_wise("Add"@, left, right, registry)),
        ("Sub"@, spec_element_wise("Sub"@, left, right, registry)),
    ] + products.map_values(
        |product: (Seq<char>, Seq<ProductTerm>)|
            (product.0, spec_product_operation(product.0, product.1, left, right, registry)),
    )
}

/// Whether the scalars of all tables are `-1`, `0` or `+1`.
pub open spec fn unit_involutions(involutions: Seq<(&'static str, Involution)>) -> bool {
    forall|i: int|
        0 <= i < involutions.len() ==> {
            &&& crate::class::unit_scalars(arguments_of((#[trigger] involutions[i]).1.terms@))
            &&& crate::class::unit_scalars(images_of(involutions[i].1.terms@))
        }
}

/// Whether the scalars of all tables are `-1`, `0` or `+1`.
pub open spec fn unit_products(products: Seq<(&'static str, Product)>) -> bool {
    forall|i: int| 0 <= i < products.len() ==> unit_terms((#[trigger] products[i]).1.terms@)
}

/// The operation that a name finds in a list.
pub fn find_operation<'b, 'a>(list: &'b Vec<(&'static str, AstNode<'a>)>, name: &str) -> (found:
    Option<&'b AstNode<'a>>)
    ensures
        match found {
            Some(node) => find(named_views(list@), name@) == Some(node.view()),
            None => find(named_views(list@), name@) is None,
        },
{
    let ghost views = named_views(list@);
    let mut remaining: usize = list.len();
    assert(views.take(remaining as int) =~= views);
    while remaining > 0
        invariant
            remaining <= list@.len(),
            views == named_views(list@),
            find(views, name@) == find(views.take(remaining as int), name@),
        decreases remaining,
    {
        let position: usize = remaining - 1;
        proof {
            assert(views.take(remaining as int).drop_last() =~= views.take(position as int));
            assert(views.take(remaining as int).last() == views[position as int]);
        }
        if same_text(list[position].0, name) && !list[position].1.is_empty() {
            return Some(&list[position].1);
        }
        remaining = position;
    }
    None
}

/// Appends an operation to a list.
pub fn push_named<'a>(
    list: &mut Vec<(&'static str, AstNode<'a>)>,
    name: &'static str,
    node: AstNode<'a>,
)
    ensures
        named_views(final(list)@) == named_views(old(list)@).push((name@, node.view())),
{
    list.push((name, node));
    assert(named_views(list@) =~= named_views(old(list)@).push((name@, node.view())));
}

/// The operations of a class alone.
pub fn synthesise_single<'a>(
    class: &'a MultiVectorClass,
    involutions: &Vec<(&'static str, Involution)>,
    registry: &'a MultiVectorClassRegistry,
) -> (single: Vec<(&'static str, AstNode<'a>)>)
    requires
        class.well_formed(),
        registry.valid(),
        unit_involutions(involutions@),
    ensures
        named_views(single@) == single_operations(*class, involution_views(involutions@), *registry),
{
    let parameter = Parameter { name: "self", data_type: DataType::MultiVector(class) };
    let ghost tables = involution_views(involutions@);
    let ghost named = |involution: (Seq<char>, Seq<(BasisElement, BasisElement)>)|
        (
            involution.0,
            spec_involution(
                involution.0,
                involution.1,
                parameter_of(*class, "self"@),
                *registry,
                false,
            ),
        );
    let mut single: Vec<(&'static str, AstNode<'a>)> = Vec::new();
    assert(named_views(single@) =~= Seq::empty());
    push_named(&mut single, "Zero", class.constant("Zero"));
    push_named(&mut single, "One", class.constant("One"));
    let ghost constants = named_views(single@);
    assert(constants =~= seq![
        ("Zero"@, spec_class_constant(*class, "Zero"@)),
        ("One"@, spec_class_constant(*class, "One"@)),
    ]);
    let mut i: usize = 0;
    assert(tables.take(0).map_values(named) =~= Seq::empty());
    while i < involutions.len()
        invariant
            i <= involutions.len(),
            class.well_formed(),
            registry.valid(),
            unit_involutions(involutions@),
            parameter.view() == parameter_of(*class, "self"@),
            parameter.data_type is MultiVector,
            tables == involution_views(involutions@),
            named == |involution: (Seq<char>, Seq<(BasisElement, BasisElement)>)|
                (
                    involution.0,
                    spec_involution(
                        involution.0,
                        involution.1,
                        parameter_of(*class, "self"@),
                        *registry,
                        false,
                    ),
                ),
            named_views(single@) == constants + tables.take(i as int).map_values(named),
        decreases involutions.len() - i,
    {
        let name = involutions[i].0;
        let node = MultiVectorClass::involution(name, &involutions[i].1, &parameter, registry, false);
        push_named(&mut single, name, node);
        proof {
            assert(tables[i as int] == (name@, involutions@[i as int].1.terms@));
            assert(tables.take(i as int + 1).map_values(named) =~= tables.take(
                i as int,
            ).map_values(named).push(named(tables[i as int])));
        }
        i += 1;
    }
    assert(tables.take(involutions.len() as int) =~= tables);
    single
}

/// The operations of one class with another.
pub fn synthesise_pair<'a>(
    class_a: &'a MultiVectorClass,
    class_b: &'a MultiVectorClass,
    same: bool,
    products: &Vec<(&'static str, Product)>,
    registry: &'a MultiVectorClassRegistry,
) -> (pair: PairOperations<'a>)
    requires
        class_a.well_formed(),
        class_b.well_formed(),
        registry.valid(),
        unit_products(products@),
    ensures
        pair.parameter.view() == parameter_of(*class_b, "other"@),
        pair.parameter.data_type is MultiVector,
        named_views(pair.operations@) == pair_operations(
            *class_a,
            *class_b,
            same,
            product_views(products@),
            *registry,
        ),
{
    let parameter_a = Parameter { name: "self", data_type: DataType::MultiVector(class_a) };
    let parameter_b = Parameter { name: "other", data_type: DataType::MultiVector(class_b) };
    let ghost tables = product_views(products@);
    let ghost left = parameter_of(*class_a, "self"@);
    let ghost right = parameter_of(*class_b, "other"@);
    let ghost named = |product: (Seq<char>, Seq<ProductTerm>)|
        (product.0, spec_product_operation(product.0, product.1, left, right, *registry));
    let mut operations: Vec<(&'static str, AstNode<'a>)> = Vec::new();
    assert(named_views(operations@) =~= Seq::empty());
    if !same {
        let projection = Involution::projection(class_b);
        proof {
            let elements = class_b.spec_flat_basis();
            assert(arguments_of(projection.terms@) =~= elements);
            assert(images_of(projection.terms@) =~= elements);
        }
        push_named(
            &mut operations,
            "Into",
            MultiVectorClass::involution("Into", &projection, &parameter_a, registry, true),
        );
    }
    push_named(
        &mut operations,
        "Add",
        MultiVectorClass::element_wise("Add", &parameter_a, &parameter_b, registry),
    );
    push_named(
        &mut operations,
        "Sub",
        MultiVectorClass::element_wise("Sub", &parameter_a, &parameter_b, registry),
    );
    let ghost sums = named_views(operations@);
    let mut i: usize = 0;
    assert(tables.take(0).map_values(named) =~= Seq::empty());
    while i < products.len()
        invariant
            i <= products.len(),
            class_a.well_formed(),
            class_b.well_formed(),
            registry.valid(),
            unit_products(products@),
            parameter_a.view() == left,
            parameter_b.view() == right,
            parameter_a.data_type is MultiVector,
            parameter_b.data_type is MultiVector,
            left == parameter_of(*class_a, "self"@),
            right == parameter_of(*class_b, "other"@),
            tables == product_views(products@),
            named == |product: (Seq<char>, Seq<ProductTerm>)|
                (product.0, spec_product_operation(product.0, product.1, left, right, *registry)),
            named_views(operations@) == sums + tables.take(i as int).map_values(named),
        decreases products.len() - i,
    {
        let name = products[i].0;
        let node = MultiVectorClass::product(name, &products[i].1, &parameter_a, &parameter_b, registry);
        push_named(&mut operations, name, node);
        proof {
            assert(tables[i as int] == (name@, products@[i as int].1.terms@));
            assert(tables.take(i as int + 1).map_values(named) =~= tables.take(
                i as int,
            ).map_values(named).push(named(tables[i as int])));
        }
        i += 1;
    }
    proof {
        assert(tables.take(products.len() as int) =~= tables);
        assert(named_views(operations@) =~= pair_operations(
            *class_a,
            *class_b,
            same,
            tables,
            *registry,
        ));
    }
    PairOperations { parameter: parameter_b, operations }
}

/// The values of the operations of a class with each class of the registry.
pub open spec fn pair_views(pairs: Seq<PairOperations>) -> Seq<(ParameterView, NamedViews)> {
    Seq::new(pairs.len(), |i: int| (pairs[i].parameter.view(), named_views(pairs[i].operations@)))
}

/// Whether a class holds the scalar alone: one group of one lane for the positive
/// element without generators.
pub open spec fn is_scalar_class(class: MultiVectorClass) -> bool {
    &&& class.spec_groups().len() == 1
    &&& class.spec_groups()[0].len() == 1
    &&& class.spec_groups()[0][0] == (BasisElement { scalar: 1, index: 0 })
}

/// The squared magnitude and the magnitude of a class, where it has a scalar product
/// with itself and a reversal.
pub open spec fn derived_magnitudes(
    single: NamedViews,
    own: NamedViews,
    a: ParameterView,
) -> NamedViews {
    match (find(own, "ScalarProduct"@), find(single, "Reversal"@)) {
        (Some(scalar_product), Some(reversal)) => {
            let squared = spec_squared_magnitude("SquaredMagnitude"@, scalar_product, reversal, a);
            seq![
                ("SquaredMagnitude"@, squared),
                ("Magnitude"@, spec_magnitude("Magnitude"@, squared, a)),
            ]
        },
        _ => Seq::empty(),
    }
}

/// What the scalar class `b` adds to the operations of a class: `Scale` where the
/// geometric product with `b` exists, then `Signum` where the magnitude is known, then
/// `Inverse` where the squared magnitude and the reversal are.
pub open spec fn scaling_step(
    known: NamedViews,
    pair: NamedViews,
    a: ParameterView,
    b: ParameterView,
) -> NamedViews {
    match find(pair, "GeometricProduct"@) {
        Some(geometric_product) => if is_scalar_class(class_of(b.data_type)) {
            let scale = seq![("Scale"@, spec_scale("Scale"@, geometric_product, a, b))];
            let signum = match find(known + scale, "Magnitude"@) {
                Some(magnitude) => seq![
                    ("Signum"@, spec_signum("Signum"@, geometric_product, magnitude, a)),
                ],
                None => Seq::empty(),
            };
            let inverse = match (
                find(known + scale + signum, "SquaredMagnitude"@),
                find(known + scale + signum, "Reversal"@),
            ) {
                (Some(squared), Some(reversal)) => seq![
                    ("Inverse"@, spec_inverse("Inverse"@, geometric_product, squared, reversal, a)),
                ],
                _ => Seq::empty(),
            };
            scale + signum + inverse
        } else {
            Seq::empty()
        },
        None => Seq::empty(),
    }
}

/// The operations derived for a class from its own: the magnitudes, then what the
/// first `count` classes add as scalar classes.
pub open spec fn derived_operations(
    single: NamedViews,
    pairs: Seq<(ParameterView, NamedViews)>,
    own: int,
    a: ParameterView,
    count: int,
) -> NamedViews
    decreases count,
{
    if count <= 0 {
        derived_magnitudes(single, pairs[own].1, a)
    } else {
        let before = derived_operations(single, pairs, own, a, count - 1);
        before + scaling_step(single + before, pairs[count - 1].1, a, pairs[count - 1].0)
    }
}

/// A name finds in two lists what it finds in the second, or else in the first.
pub proof fn lemma_find_concatenated(first: NamedViews, second: NamedViews, name: Seq<char>)
    ensures
        find(first + second, name) == match find(second, name) {
            Some(node) => Some(node),
            None => find(first, name),
        },
    decreases second.len(),
{
    if second.len() == 0 {
        assert(first + second =~= first);
    } else {
        assert((first + second).drop_last() =~= first + second.drop_last());
        lemma_find_concatenated(first, second.drop_last(), name);
    }
}

/// What a name finds among operations is an operation with a multivector as result.
pub proof fn lemma_find_operation(list: NamedViews, name: Seq<char>)
    requires
        all_operations(list),
    ensures
        find(list, name) matches Some(node) ==> node is TraitImplementation && result_of(
            node,
        ).data_type is MultiVector,
    decreases list.len(),
{
    if list.len() > 0 {
        assert(is_operation(list[list.len() - 1].1));
        assert forall|i: int| 0 <= i < list.drop_last().len() implies is_operation(
            (#[trigger] list.drop_last()[i]).1,
        ) by {
            assert(list.drop_last()[i] == list[i]);
        }
        lemma_find_operation(list.drop_last(), name);
    }
}

/// The operation that a name finds in two lists, the second being the later one.
pub fn find_known<'b, 'a>(
    single: &'b Vec<(&'static str, AstNode<'a>)>,
    derived: &'b Vec<(&'static str, AstNode<'a>)>,
    name: &str,
) -> (found: Option<&'b AstNode<'a>>)
    ensures
        match found {
            Some(node) => find(named_views(single@) + named_views(derived@), name@) == Some(
                node.view(),
            ),
            None => find(named_views(single@) + named_views(derived@), name@) is None,
        },
{
    proof {
        lemma_find_concatenated(named_views(single@), named_views(derived@), name@);
    }
    match find_operation(derived, name) {
        Some(node) => Some(node),
        None => find_operation(single, name),
    }
}

/// Whether a class holds the scalar alone.
pub fn holds_scalar_alone(class: &MultiVectorClass) -> (alone: bool)
    ensures
        alone == is_scalar_class(*class),
{
    if class.grouped_basis.len() != 1 {
        return false;
    }
    assert(class.grouped_basis@[0]@ == class.spec_groups()[0]);
    class.grouped_basis[0].len() == 1 && class.grouped_basis[0][0].scalar == 1
        && class.grouped_basis[0][0].index == 0
}

/// Whether all operations of all pairs are operations or `Empty`, and every other
/// operand a multivector.
pub open spec fn all_pair_operations(pairs: Seq<PairOperations>) -> bool {
    forall|i: int|
        0 <= i < pairs.len() ==> all_operations(named_views((#[trigger] pairs[i]).operations@))
            && pairs[i].parameter.data_type is MultiVector
}

/// What one class adds, as a scalar class, to the operations of a class.
fn derive_scaling<'a>(
    single: &Vec<(&'static str, AstNode<'a>)>,
    derived: &mut Vec<(&'static str, AstNode<'a>)>,
    pair: &PairOperations<'a>,
    parameter_a: &Parameter<'a>,
)
    requires
        all_operations(named_views(single@)),
        all_operations(named_views(old(derived)@)),
        all_operations(named_views(pair.operations@)),
        pair.parameter.data_type is MultiVector,
    ensures
        named_views(final(derived)@) == named_views(old(derived)@) + scaling_step(
            named_views(single@) + named_views(old(derived)@),
            named_views(pair.operations@),
            parameter_a.view(),
            pair.parameter.view(),
        ),
        all_operations(named_views(final(derived)@)),
{
    let ghost known = named_views(single@) + named_views(derived@);
    let ghost before = named_views(derived@);
    proof {
        lemma_find_operation(named_views(pair.operations@), "GeometricProduct"@);
    }
    let geometric_product = match find_operation(&pair.operations, "GeometricProduct") {
        Some(node) => node,
        None => {
            assert(named_views(derived@) =~= before + Seq::empty());
            return ;
        },
    };
    if !holds_scalar_alone(pair.parameter.multi_vector_class()) {
        assert(named_views(derived@) =~= before + Seq::empty());
        return ;
    }
    let scale = MultiVectorClass::derive_scale("Scale", geometric_product, parameter_a, &pair.parameter);
    let ghost scale_view = seq![("Scale"@, scale.view())];
    push_named(derived, "Scale", scale);
    proof {
        assert(named_views(derived@) =~= before + scale_view);
        assert(named_views(single@) + named_views(derived@) =~= known + scale_view);
        lemma_all_operations_push(before, "Scale"@, scale_view[0].1);
        lemma_all_operations_concatenated(named_views(single@), named_views(derived@));
        lemma_find_operation(known + scale_view, "Magnitude"@);
    }
    let ghost mut signum_view: NamedViews = Seq::empty();
    let signum = match find_known(single, derived, "Magnitude") {
        Some(magnitude) => Some(
            MultiVectorClass::derive_signum("Signum", geometric_product, magnitude, parameter_a),
        ),
        None => None,
    };
    match signum {
        Some(node) => {
            proof {
                signum_view = seq![("Signum"@, node.view())];
                lemma_all_operations_push(before + scale_view, "Signum"@, node.view());
            }
            push_named(derived, "Signum", node);
        },
        None => {},
    }
    proof {
        assert(named_views(derived@) =~= before + scale_view + signum_view);
        assert(named_views(single@) + named_views(derived@) =~= known + scale_view + signum_view);
        lemma_all_operations_concatenated(named_views(single@), named_views(derived@));
        lemma_find_operation(known + scale_view + signum_view, "SquaredMagnitude"@);
        lemma_find_operation(known + scale_view + signum_view, "Reversal"@);
    }
    let inverse = match find_known(single, derived, "SquaredMagnitude") {
        Some(squared) => match find_known(single, derived, "Reversal") {
            Some(reversal) => Some(
                MultiVectorClass::derive_inverse(
                    "Inverse",
                    geometric_product,
                    squared,
                    reversal,
                    parameter_a,
                ),
            ),
            None => None,
        },
        None => None,
    };
    let ghost mut inverse_view: NamedViews = Seq::empty();
    match inverse {
        Some(node) => {
            proof {
                inverse_view = seq![("Inverse"@, node.view())];
                lemma_all_operations_push(
                    before + scale_view + signum_view,
                    "Inverse"@,
                    node.view(),
                );
            }
            push_named(derived, "Inverse", node);
        },
        None => {},
    }
    proof {
        assert(named_views(derived@) =~= before + (scale_view + signum_view + inverse_view));
    }
}

/// A list of operations stays one when an operation is appended.
pub proof fn lemma_all_operations_push(list: NamedViews, name: Seq<char>, node: AstNodeView)
    requires
        all_operations(list),
        is_operation(node),
    ensures
        all_operations(list.push((name, node))),
{
    let longer = list.push((name, node));
    assert forall|i: int| 0 <= i < longer.len() implies is_operation((#[trigger] longer[i]).1) by {
        if i < list.len() {
            assert(longer[i] == list[i]);
        }
    }
}

/// Two lists of operations make one.
pub proof fn lemma_all_operations_concatenated(first: NamedViews, second: NamedViews)
    requires
        all_operations(first),
        all_operations(second),
    ensures
        all_operations(first + second),
{
    let both = first + second;
    assert forall|i: int| 0 <= i < both.len() implies is_operation((#[trigger] both[i]).1) by {
        if i < first.len() {
            assert(both[i] == first[i]);
        } else {
            assert(both[i] == second[i - first.len()]);
        }
    }
}

/// The operations derived for a class from its own.
pub fn derive_class<'a>(
    parameter_a: &Parameter<'a>,
    single: &Vec<(&'static str, AstNode<'a>)>,
    pairs: &Vec<PairOperations<'a>>,
    own: usize,
) -> (derived: Vec<(&'static str, AstNode<'a>)>)
    requires
        own < pairs@.len(),
        all_operations(named_views(single@)),
        all_pair_operations(pairs@),
    ensures
        named_views(derived@) == derived_operations(
            named_views(single@),
            pair_views(pairs@),
            own as int,
            parameter_a.view(),
            pairs@.len() as int,
        ),
        all_operations(named_views(derived@)),
{
    let ghost single_view = named_views(single@);
    let ghost views = pair_views(pairs@);
    let mut derived: Vec<(&'static str, AstNode<'a>)> = Vec::new();
    assert(named_views(derived@) =~= Seq::empty());
    proof {
        assert(views[own as int].1 == named_views(pairs@[own as int].operations@));
        lemma_find_operation(views[own as int].1, "ScalarProduct"@);
        lemma_find_operation(single_view, "Reversal"@);
    }
    match find_operation(&pairs[own].operations, "ScalarProduct") {
        Some(scalar_product) => {
            match find_operation(single, "Reversal") {
                Some(reversal) => {
                    let squared = MultiVectorClass::derive_squared_magnitude(
                        "SquaredMagnitude",
                        scalar_product,
                        reversal,
                        parameter_a,
                    );
                    let magnitude = MultiVectorClass::derive_magnitude(
                        "Magnitude",
                        &squared,
                        parameter_a,
                    );
                    proof {
                        lemma_all_operations_push(Seq::empty(), "SquaredMagnitude"@, squared.view());
                        lemma_all_operations_push(
                            seq![("SquaredMagnitude"@, squared.view())],
                            "Magnitude"@,
                            magnitude.view(),
                        );
                    }
                    push_named(&mut derived, "SquaredMagnitude", squared);
                    push_named(&mut derived, "Magnitude", magnitude);
                },
                None => {},
            }
        },
        None => {},
    }
    assert(named_views(derived@) =~= derived_magnitudes(
        single_view,
        views[own as int].1,
        parameter_a.view(),
    ));
    let mut b: usize = 0;
    while b < pairs.len()
        invariant
            b <= pairs.len(),
            own < pairs@.len(),
            single_view == named_views(single@),
            views == pair_views(pairs@),
            all_operations(single_view),
            all_pair_operations(pairs@),
            all_operations(named_views(derived@)),
            named_views(derived@) == derived_operations(
                single_view,
                views,
                own as int,
                parameter_a.view(),
                b as int,
            ),
        decreases pairs.len() - b,
    {
        proof {
            assert(views[b as int] == (
                pairs@[b as int].parameter.view(),
                named_views(pairs@[b as int].operations@),
            ));
        }
        derive_scaling(single, &mut derived, &pairs[b], parameter_a);
        b += 1;
    }
    derived
}

/// The operations of one class, as values.
pub ghost struct ClassView {
    pub parameter: ParameterView,
    pub single: NamedViews,
    pub pairs: Seq<(ParameterView, NamedViews)>,
    pub derived: NamedViews,
}

impl<'a> ClassOperations<'a> {
    /// The mathematical value of the operations of the class.
    pub open spec fn view(&self) -> ClassView {
        ClassView {
            parameter: self.parameter.view(),
            single: named_views(self.single@),
            pairs: pair_views(self.pairs@),
            derived: named_views(self.derived@),
        }
    }

    /// Whether all operations are operations or `Empty`, one list of them for each of
    /// `count` classes, and the class and every other operand a multivector.
    pub open spec fn well_formed(&self, count: nat) -> bool {
        &&& self.parameter.data_type is MultiVector
        &&& self.pairs@.len() == count
        &&& all_operations(named_views(self.single@))
        &&& all_operations(named_views(self.derived@))
        &&& all_pair_operations(self.pairs@)
    }
}

/// The operations of all classes, as values.
pub open spec fn class_views(classes: Seq<ClassOperations>) -> Seq<ClassView> {
    Seq::new(classes.len(), |i: int| classes[i].view())
}

/// The position of the last class with the given name.
pub open spec fn name_position(classes: Seq<MultiVectorClass>, name: Seq<char>) -> Option<int>
    decreases classes.len(),
{
    if classes.len() == 0 {
        None
    } else if classes.last().class_name@ == name {
        Some(classes.len() - 1)
    } else {
        name_position(classes.drop_last(), name)
    }
}

/// The integer power of class `a`, where the geometric product of the class with
/// itself gives the class again and the class has a `One` and an `Inverse`.
pub open spec fn compound_power(
    class: ClassView,
    geometric_product: AstNodeView,
    own: bool,
) -> NamedViews {
    let known = class.single + class.derived;
    if own && class_of(result_of(geometric_product).data_type).class_name@ == class_of(
        class.parameter.data_type,
    ).class_name@ {
        match (find(known, "One"@), find(known, "Inverse"@)) {
            (Some(one), Some(inverse)) => seq![
                (
                    "Powi"@,
                    spec_power_of_integer(
                        "Powi"@,
                        geometric_product,
                        one,
                        inverse,
                        class.parameter,
                        ParameterView { name: "exponent"@, data_type: DataTypeView::Integer },
                    ),
                ),
            ],
            _ => Seq::empty(),
        }
    } else {
        Seq::empty()
    }
}

/// The quotient of `a` by `b`, where `b` has an `Inverse`.
pub open spec fn compound_quotient(
    classes: Seq<ClassView>,
    geometric_product: AstNodeView,
    a: int,
    b: int,
) -> NamedViews {
    match find(classes[b].single + classes[b].derived, "Inverse"@) {
        Some(inverse) => seq![
            (
                "GeometricQuotient"@,
                spec_division(
                    "GeometricQuotient"@,
                    geometric_product,
                    inverse,
                    classes[a].parameter,
                    classes[a].pairs[b].0,
                ),
            ),
        ],
        None => Seq::empty(),
    }
}

/// The transformation of `b` by `a`, where `a` has a `Reversal` and the product of
/// `a` with `b` has a geometric product with `a` again. Where the class of that second
/// product converts into `b`, the transformation ends with the conversion.
pub open spec fn compound_transformation(
    classes: Seq<ClassView>,
    names: Seq<MultiVectorClass>,
    geometric_product: AstNodeView,
    a: int,
    b: int,
) -> NamedViews {
    match find(classes[a].single + classes[a].derived, "Reversal"@) {
        Some(reversal) => match name_position(
            names,
            class_of(result_of(geometric_product).data_type).class_name@,
        ) {
            Some(first) => match find(classes[first].pairs[a].1, "GeometricProduct"@) {
                Some(geometric_product_2) => match name_position(
                    names,
                    class_of(result_of(geometric_product_2).data_type).class_name@,
                ) {
                    Some(second) => seq![
                        (
                            "Transformation"@,
                            spec_sandwich_product(
                                "Transformation"@,
                                geometric_product,
                                geometric_product_2,
                                reversal,
                                find(classes[second].pairs[b].1, "Into"@),
                                classes[a].parameter,
                                classes[a].pairs[b].0,
                            ),
                        ),
                    ],
                    None => Seq::empty(),
                },
                None => Seq::empty(),
            },
            None => Seq::empty(),
        },
        None => Seq::empty(),
    }
}

/// The operations derived for the pair of classes `a` and `b` from the operations of
/// all classes: where their geometric product exists, the integer power, the quotient
/// and the transformation, each where it can be had.
pub open spec fn compound_step(
    classes: Seq<ClassView>,
    names: Seq<MultiVectorClass>,
    a: int,
    b: int,
) -> NamedViews {
    match find(classes[a].pairs[b].1, "GeometricProduct"@) {
        Some(geometric_product) => compound_power(classes[a], geometric_product, a == b)
            + compound_quotient(classes, geometric_product, a, b) + compound_transformation(
            classes,
            names,
            geometric_product,
            a,
            b,
        ),
        None => Seq::empty(),
    }
}

/// The operations derived for class `a` with the first `count` classes.
pub open spec fn compound_row(
    classes: Seq<ClassView>,
    names: Seq<MultiVectorClass>,
    a: int,
    count: int,
) -> NamedViews
    decreases count,
{
    if count <= 0 {
        Seq::empty()
    } else {
        compound_row(classes, names, a, count - 1) + compound_step(classes, names, a, count - 1)
    }
}

/// The operations derived for the first `count` classes with all classes.
pub open spec fn compound_operations(
    classes: Seq<ClassView>,
    names: Seq<MultiVectorClass>,
    count: int,
) -> NamedViews
    decreases count,
{
    if count <= 0 {
        Seq::empty()
    } else {
        compound_operations(classes, names, count - 1) + compound_row(
            classes,
            names,
            count - 1,
            classes.len() as int,
        )
    }
}

/// The position of the last class with the given name.
pub fn position_of_name(registry: &MultiVectorClassRegistry, name: &str) -> (position: Option<
    usize,
>)
    ensures
        match position {
            Some(p) => name_position(registry.classes@, name@) == Some(p as int) && p
                < registry.classes@.len(),
            None => name_position(registry.classes@, name@) is None,
        },
{
    let ghost classes = registry.classes@;
    let mut remaining: usize = registry.classes.len();
    assert(classes.take(remaining as int) =~= classes);
    while remaining > 0
        invariant
            remaining <= classes.len(),
            classes == registry.classes@,
            name_position(classes, name@) == name_position(classes.take(remaining as int), name@),
        decreases remaining,
    {
        let position: usize = remaining - 1;
        proof {
            assert(classes.take(remaining as int).drop_last() =~= classes.take(position as int));
            assert(classes.take(remaining as int).last() == classes[position as int]);
        }
        if same_text(registry.classes[position].class_name.as_str(), name) {
            return Some(position);
        }
        remaining = position;
    }
    None
}

/// Whether the operations of all classes are well formed, one for each class of the
/// registry.
pub open spec fn all_classes_well_formed(classes: Seq<ClassOperations>, count: nat) -> bool {
    &&& classes.len() == count
    &&& forall|i: int| 0 <= i < classes.len() ==> (#[trigger] classes[i]).well_formed(count)
}

proof fn lemma_class_view(classes: Seq<ClassOperations>, count: nat, a: int, b: int)
    requires
        all_classes_well_formed(classes, count),
        0 <= a < count,
        0 <= b < count,
    ensures
        class_views(classes)[a] == classes[a].view(),
        classes[a].view().pairs[b] == (
            classes[a].pairs@[b].parameter.view(),
            named_views(classes[a].pairs@[b].operations@),
        ),
        all_operations(classes[a].view().single + classes[a].view().derived),
        all_operations(classes[a].view().pairs[b].1),
        classes[a].pairs@[b].parameter.data_type is MultiVector,
        classes[a].parameter.data_type is MultiVector,
{
    assert(classes[a].well_formed(count));
    lemma_all_operations_concatenated(classes[a].view().single, classes[a].view().derived);
    assert(all_operations(named_views(classes[a].pairs@[b].operations@)));
}

/// The operations derived for one pair of classes.
fn derive_pair<'a>(
    classes: &Vec<ClassOperations<'a>>,
    registry: &'a MultiVectorClassRegistry,
    a: usize,
    b: usize,
    compound: &mut Vec<(&'static str, AstNode<'a>)>,
)
    requires
        all_classes_well_formed(classes@, registry.classes@.len()),
        a < classes@.len(),
        b < classes@.len(),
    ensures
        named_views(final(compound)@) == named_views(old(compound)@) + compound_step(
            class_views(classes@),
            registry.classes@,
            a as int,
            b as int,
        ),
{
    let ghost views = class_views(classes@);
    let ghost names = registry.classes@;
    let ghost count = registry.classes@.len();
    let ghost before = named_views(compound@);
    proof {
        lemma_class_view(classes@, count, a as int, b as int);
        lemma_class_view(classes@, count, b as int, a as int);
        lemma_find_operation(views[a as int].pairs[b as int].1, "GeometricProduct"@);
    }
    let class_a = &classes[a];
    let parameter_a = &class_a.parameter;
    let parameter_b = &class_a.pairs[b].parameter;
    let geometric_product = match find_operation(&class_a.pairs[b].operations, "GeometricProduct") {
        Some(node) => node,
        None => {
            assert(named_views(compound@) =~= before + Seq::empty());
            return ;
        },
    };
    let result = result_of_trait(geometric_product);
    let result_class = result.multi_vector_class();
    // the integer power
    let ghost mut power_view: NamedViews = Seq::empty();
    if a == b && same_text(
        result_class.class_name.as_str(),
        parameter_a.multi_vector_class().class_name.as_str(),
    ) {
        proof {
            lemma_find_operation(views[a as int].single + views[a as int].derived, "One"@);
            lemma_find_operation(views[a as int].single + views[a as int].derived, "Inverse"@);
        }
        match find_known(&class_a.single, &class_a.derived, "One") {
            Some(one) => {
                match find_known(&class_a.single, &class_a.derived, "Inverse") {
                    Some(inverse) => {
                        let exponent = Parameter { name: "exponent", data_type: DataType::Integer };
                        let node = MultiVectorClass::derive_power_of_integer(
                            "Powi",
                            geometric_product,
                            one,
                            inverse,
                            parameter_a,
                            &exponent,
                        );
                        proof {
                            power_view = seq![("Powi"@, node.view())];
                        }
                        push_named(compound, "Powi", node);
                    },
                    None => {},
                }
            },
            None => {},
        }
    }
    assert(power_view == compound_power(views[a as int], geometric_product.view(), a == b));
    assert(named_views(compound@) =~= before + power_view);
    // the quotient
    let ghost mut quotient_view: NamedViews = Seq::empty();
    proof {
        lemma_find_operation(views[b as int].single + views[b as int].derived, "Inverse"@);
    }
    match find_known(&classes[b].single, &classes[b].derived, "Inverse") {
        Some(inverse) => {
            let node = MultiVectorClass::derive_division(
                "GeometricQuotient",
                geometric_product,
                inverse,
                parameter_a,
                parameter_b,
            );
            proof {
                quotient_view = seq![("GeometricQuotient"@, node.view())];
            }
            push_named(compound, "GeometricQuotient", node);
        },
        None => {},
    }
    assert(quotient_view == compound_quotient(
        views,
        geometric_product.view(),
        a as int,
        b as int,
    ));
    assert(named_views(compound@) =~= before + power_view + quotient_view);
    // the transformation
    let ghost mut transformation_view: NamedViews = Seq::empty();
    proof {
        lemma_find_operation(views[a as int].single + views[a as int].derived, "Reversal"@);
    }
    match find_known(&class_a.single, &class_a.derived, "Reversal") {
        Some(reversal) => {
            match position_of_name(registry, result_class.class_name.as_str()) {
                Some(first) => {
                    proof {
                        lemma_class_view(classes@, count, first as int, a as int);
                        lemma_find_operation(
                            views[first as int].pairs[a as int].1,
                            "GeometricProduct"@,
                        );
                    }
                    match find_operation(&classes[first].pairs[a].operations, "GeometricProduct") {
                        Some(geometric_product_2) => {
                            let result_2 = result_of_trait(geometric_product_2);
                            match position_of_name(
                                registry,
                                result_2.multi_vector_class().class_name.as_str(),
                            ) {
                                Some(second) => {
                                    proof {
                                        lemma_class_view(classes@, count, second as int, b as int);
                                        lemma_find_operation(
                                            views[second as int].pairs[b as int].1,
                                            "Into"@,
                                        );
                                    }
                                    let node = MultiVectorClass::derive_sandwich_product(
                                        "Transformation",
                                        geometric_product,
                                        geometric_product_2,
                                        reversal,
                                        find_operation(&classes[second].pairs[b].operations, "Into"),
                                        parameter_a,
                                        parameter_b,
                                    );
                                    proof {
                                        transformation_view = seq![("Transformation"@, node.view())];
                                    }
                                    push_named(compound, "Transformation", node);
                                },
                                None => {},
                            }
                        },
                        None => {},
                    }
                },
                None => {},
            }
        },
        None => {},
    }
    assert(transformation_view == compound_transformation(
        views,
        names,
        geometric_product.view(),
        a as int,
        b as int,
    ));
    assert(named_views(compound@) =~= before + (power_view + quotient_view + transformation_view));
}

/// The operations derived for all pairs of classes from the operations of all classes,
/// class by class and, for each, in the order of the registry.
pub fn derive_compounds<'a>(
    classes: &Vec<ClassOperations<'a>>,
    registry: &'a MultiVectorClassRegistry,
) -> (compound: Vec<(&'static str, AstNode<'a>)>)
    requires
        all_classes_well_formed(classes@, registry.classes@.len()),
    ensures
        named_views(compound@) == compound_operations(
            class_views(classes@),
            registry.classes@,
            classes@.len() as int,
        ),
{
    let ghost views = class_views(classes@);
    let ghost names = registry.classes@;
    let count: usize = classes.len();
    let mut compound: Vec<(&'static str, AstNode<'a>)> = Vec::new();
    assert(named_views(compound@) =~= Seq::empty());
    let mut a: usize = 0;
    while a < count
        invariant
            a <= count,
            count == classes@.len(),
            views == class_views(classes@),
            names == registry.classes@,
            all_classes_well_formed(classes@, registry.classes@.len()),
            named_views(compound@) == compound_operations(views, names, a as int),
        decreases count - a,
    {
        let ghost before = named_views(compound@);
        let mut b: usize = 0;
        assert(named_views(compound@) =~= before + compound_row(views, names, a as int, 0));
        while b < count
            invariant
                b <= count,
                a < count,
                count == classes@.len(),
                views == class_views(classes@),
                names == registry.classes@,
                all_classes_well_formed(classes@, registry.classes@.len()),
                named_views(compound@) == before + compound_row(views, names, a as int, b as int),
            decreases count - b,
        {
            let ghost row = compound_row(views, names, a as int, b as int);
            derive_pair(classes, registry, a, b, &mut compound);
            proof {
                let step = compound_step(views, names, a as int, b as int);
                assert(before + row + step =~= before + (row + step));
            }
            b += 1;
        }
        a += 1;
    }
    compound
}

/// Everything that is generated for an algebra and its classes: the definitions, the
/// operations of each class, and the operations derived for pairs of classes.
pub struct Generated<'a> {
    pub definitions: Vec<AstNode<'a>>,
    pub classes: Vec<ClassOperations<'a>>,
    pub compound: Vec<(&'static str, AstNode<'a>)>,
}

/// The operations of class `a` of the registry: those of the class alone, those with
/// each class, and those derived from both.
pub open spec fn spec_class_operations(
    registry: MultiVectorClassRegistry,
    involutions: Seq<(Seq<char>, Seq<(BasisElement, BasisElement)>)>,
    products: Seq<(Seq<char>, Seq<ProductTerm>)>,
    a: int,
) -> ClassView {
    let class = registry.classes@[a];
    let parameter = parameter_of(class, "self"@);
    let single = single_operations(class, involutions, registry);
    let pairs = Seq::new(
        registry.classes@.len(),
        |b: int|
            (
                parameter_of(registry.classes@[b], "other"@),
                pair_operations(class, registry.classes@[b], a == b, products, registry),
            ),
    );
    ClassView {
        parameter,
        single,
        pairs,
        derived: derived_operations(single, pairs, a, parameter, registry.classes@.len() as int),
    }
}

/// The definitions: the preamble, then one for each class.
pub open spec fn spec_definitions(registry: MultiVectorClassRegistry) -> Seq<AstNodeView> {
    seq![AstNodeView::Preamble] + registry.classes@.map_values(
        |class: MultiVectorClass| AstNodeView::ClassDefinition { class },
    )
}

/// The operations of a class alone are operations.
pub proof fn lemma_single_operations(
    class: MultiVectorClass,
    involutions: Seq<(Seq<char>, Seq<(BasisElement, BasisElement)>)>,
    registry: MultiVectorClassRegistry,
)
    ensures
        all_operations(single_operations(class, involutions, registry)),
{
    let list = single_operations(class, involutions, registry);
    assert forall|i: int| 0 <= i < list.len() implies is_operation((#[trigger] list[i]).1) by {
        if i >= 2 {
            let involution = involutions[i - 2];
            assert(list[i].1 == spec_involution(
                involution.0,
                involution.1,
                parameter_of(class, "self"@),
                registry,
                false,
            ));
        }
    }
}

/// The operations of one class with another are operations.
pub proof fn lemma_pair_operations(
    a: MultiVectorClass,
    b: MultiVectorClass,
    same: bool,
    products: Seq<(Seq<char>, Seq<ProductTerm>)>,
    registry: MultiVectorClassRegistry,
)
    ensures
        all_operations(pair_operations(a, b, same, products, registry)),
{
    let list = pair_operations(a, b, same, products, registry);
    let left = parameter_of(a, "self"@);
    let right = parameter_of(b, "other"@);
    let offset: int = if same {
        2
    } else {
        3
    };
    assert forall|i: int| 0 <= i < list.len() implies is_operation((#[trigger] list[i]).1) by {
        if i >= offset {
            let product = products[i - offset];
            assert(list[i].1 == spec_product_operation(
                product.0,
                product.1,
                left,
                right,
                registry,
            ));
        }
    }
}

/// The operations of one class of the registry.
pub fn synthesise_class<'a>(
    a: usize,
    registry: &'a MultiVectorClassRegistry,
    involutions: &Vec<(&'static str, Involution)>,
    products: &Vec<(&'static str, Product)>,
) -> (operations: ClassOperations<'a>)
    requires
        a < registry.classes@.len(),
        registry.valid(),
        unit_involutions(involutions@),
        unit_products(products@),
    ensures
        operations.view() == spec_class_operations(
            *registry,
            involution_views(involutions@),
            product_views(products@),
            a as int,
        ),
        operations.well_formed(registry.classes@.len()),
{
    let class = &registry.classes[a];
    let parameter = Parameter { name: "self", data_type: DataType::MultiVector(class) };
    let ghost expected = spec_class_operations(
        *registry,
        involution_views(involutions@),
        product_views(products@),
        a as int,
    );
    let single = synthesise_single(class, involutions, registry);
    proof {
        lemma_single_operations(*class, involution_views(involutions@), *registry);
    }
    let mut pairs: Vec<PairOperations<'a>> = Vec::new();
    let mut b: usize = 0;
    while b < registry.classes.len()
        invariant
            b <= registry.classes.len(),
            a < registry.classes@.len(),
            registry.valid(),
            unit_products(products@),
            *class == registry.classes@[a as int],
            expected == spec_class_operations(
                *registry,
                involution_views(involutions@),
                product_views(products@),
                a as int,
            ),
            pairs@.len() == b,
            all_pair_operations(pairs@),
            forall|j: int|
                0 <= j < b ==> (
                    (#[trigger] pairs@[j]).parameter.view(),
                    named_views(pairs@[j].operations@),
                ) == expected.pairs[j],
        decreases registry.classes.len() - b,
    {
        let pair = synthesise_pair(class, &registry.classes[b], a == b, products, registry);
        proof {
            lemma_pair_operations(
                *class,
                registry.classes@[b as int],
                a == b,
                product_views(products@),
                *registry,
            );
        }
        pairs.push(pair);
        b += 1;
    }
    assert(pair_views(pairs@) =~= expected.pairs);
    let derived = derive_class(&parameter, &single, &pairs, a);
    ClassOperations { parameter, single, pairs, derived }
}

/// Everything that is generated for an algebra and the classes of a registry.
pub fn generate<'a>(algebra: &GeometricAlgebra, registry: &'a MultiVectorClassRegistry) -> (generated:
    Generated<'a>)
    requires
        algebra.well_formed(),
        registry.valid(),
    ensures
        statements_view(generated.definitions@) == spec_definitions(*registry),
        class_views(generated.classes@) == Seq::new(
            registry.classes@.len(),
            |a: int|
                spec_class_operations(
                    *registry,
                    spec_involutions(algebra.dimension()),
                    spec_products(algebra.generator_squares@),
                    a,
                ),
        ),
        named_views(generated.compound@) == compound_operations(
            class_views(generated.classes@),
            registry.classes@,
            registry.classes@.len() as int,
        ),
        all_classes_well_formed(generated.classes@, registry.classes@.len()),
{
    let involutions = Involution::involutions(algebra);
    let products = Product::products(algebra);
    let ghost involution_tables = spec_involutions(algebra.dimension());
    let ghost product_tables = spec_products(algebra.generator_squares@);
    proof {
        assert(involution_views(involutions@) =~= involution_tables);
        assert(product_views(products@) =~= product_tables);
        assert forall|i: int| 0 <= i < involutions@.len() implies {
            &&& crate::class::unit_scalars(arguments_of((#[trigger] involutions@[i]).1.terms@))
            &&& crate::class::unit_scalars(images_of(involutions@[i].1.terms@))
        } by {
            let terms = involutions@[i].1.terms@;
            assert(valid_terms(terms, algebra.dimension()));
            assert forall|k: int| 0 <= k < terms.len() implies -1 <= (#[trigger] arguments_of(
                terms,
            )[k]).scalar <= 1 by {
                assert(terms[k].0.valid_in(algebra.dimension()));
            }
            assert forall|k: int| 0 <= k < terms.len() implies -1 <= (#[trigger] images_of(
                terms,
            )[k]).scalar <= 1 by {
                assert(terms[k].1.valid_in(algebra.dimension()));
            }
        }
        assert forall|i: int| 0 <= i < products@.len() implies unit_terms(
            (#[trigger] products@[i]).1.terms@,
        ) by {
            assert(valid_product_terms(products@[i].1.terms@, algebra.dimension()));
        }
    }
    let mut definitions: Vec<AstNode<'a>> = Vec::new();
    definitions.push(AstNode::Preamble);
    let mut c: usize = 0;
    while c < registry.classes.len()
        invariant
            c <= registry.classes.len(),
            definitions@.len() == c + 1,
            definitions@[0].view() == AstNodeView::Preamble,
            forall|k: int|
                1 <= k < c + 1 ==> (#[trigger] definitions@[k]).view() == (
                AstNodeView::ClassDefinition { class: registry.classes@[k - 1] }),
        decreases registry.classes.len() - c,
    {
        definitions.push(AstNode::ClassDefinition { class: &registry.classes[c] });
        c += 1;
    }
    proof {
        let expected = spec_definitions(*registry);
        assert(expected.len() == definitions@.len());
        assert forall|k: int| 0 <= k < expected.len() implies statements_view(definitions@)[k]
            == expected[k] by {
            if k >= 1 {
                assert(definitions@[k].view() == (AstNodeView::ClassDefinition {
                    class: registry.classes@[k - 1],
                }));
            }
        }
        assert(statements_view(definitions@) =~= expected);
    }
    let mut classes: Vec<ClassOperations<'a>> = Vec::new();
    let mut a: usize = 0;
    while a < registry.classes.len()
        invariant
            a <= registry.classes.len(),
            registry.valid(),
            unit_involutions(involutions@),
            unit_products(products@),
            involution_views(involutions@) == involution_tables,
            product_views(products@) == product_tables,
            classes@.len() == a,
            forall|j: int|
                0 <= j < a ==> (#[trigger] classes@[j]).well_formed(registry.classes@.len()),
            forall|j: int|
                0 <= j < a ==> (#[trigger] classes@[j]).view() == spec_class_operations(
                    *registry,
                    involution_tables,
                    product_tables,
                    j,
                ),
        decreases registry.classes.len() - a,
    {
        classes.push(synthesise_class(a, registry, &involutions, &products));
        a += 1;
    }
    assert(class_views(classes@) =~= Seq::new(
        registry.classes@.len(),
        |a: int| spec_class_operations(*registry, involution_tables, product_tables, a),
    ));
    let compound = derive_compounds(&classes, registry);
    Generated { definitions, classes, compound }
}

/// The values of a list of borrowed nodes.
pub open spec fn borrowed_views(nodes: Seq<&AstNode>) -> Seq<AstNodeView> {
    Seq::new(nodes.len(), |i: int| nodes[i].view())
}

/// The nodes of a list of named operations.
pub open spec fn nodes_of(list: NamedViews) -> Seq<AstNodeView> {
    list.map_values(|named: (Seq<char>, AstNodeView)| named.1)
}

/// The nodes of the operations of a class with the first `count` classes.
pub open spec fn pair_nodes(pairs: Seq<(ParameterView, NamedViews)>, count: int) -> Seq<AstNodeView>
    decreases count,
{
    if count <= 0 {
        Seq::empty()
    } else {
        pair_nodes(pairs, count - 1) + nodes_of(pairs[count - 1].1)
    }
}

/// The nodes of one class in the order of their emission: the operations of the class
/// alone, those with each class, and the derived ones.
pub open spec fn class_nodes(class: ClassView) -> Seq<AstNodeView> {
    nodes_of(class.single) + pair_nodes(class.pairs, class.pairs.len() as int) + nodes_of(
        class.derived,
    )
}

/// The nodes of the first `count` classes.
pub open spec fn all_class_nodes(classes: Seq<ClassView>, count: int) -> Seq<AstNodeView>
    decreases count,
{
    if count <= 0 {
        Seq::empty()
    } else {
        all_class_nodes(classes, count - 1) + class_nodes(classes[count - 1])
    }
}

fn push_nodes<'b, 'a>(order: &mut Vec<&'b AstNode<'a>>, list: &'b Vec<(&'static str, AstNode<'a>)>)
    ensures
        borrowed_views(final(order)@) == borrowed_views(old(order)@) + nodes_of(
            named_views(list@),
        ),
{
    let ghost before = borrowed_views(order@);
    let ghost nodes = nodes_of(named_views(list@));
    let mut i: usize = 0;
    assert(borrowed_views(order@) =~= before + nodes.take(0));
    while i < list.len()
        invariant
            i <= list.len(),
            nodes == nodes_of(named_views(list@)),
            borrowed_views(order@) == before + nodes.take(i as int),
        decreases list.len() - i,
    {
        let ghost previous = order@;
        order.push(&list[i].1);
        proof {
            assert(order@ == previous.push(&list@[i as int].1));
            assert(borrowed_views(order@) =~= borrowed_views(previous).push(
                list@[i as int].1.view(),
            ));
            assert(nodes.take(i as int + 1) =~= nodes.take(i as int).push(nodes[i as int]));
            assert(borrowed_views(order@) =~= before + nodes.take(i as int + 1));
        }
        i += 1;
    }
    assert(nodes.take(list.len() as int) =~= nodes);
}

impl<'a> Generated<'a> {
    /// All nodes in the order of their emission: the definitions, then class by class
    /// the operations of the class, then the operations derived for pairs of classes.
    pub fn emission_order<'b>(&'b self) -> (order: Vec<&'b AstNode<'a>>)
        ensures
            borrowed_views(order@) == statements_view(self.definitions@) + all_class_nodes(
                class_views(self.classes@),
                self.classes@.len() as int,
            ) + nodes_of(named_views(self.compound@)),
    {
        let ghost views = class_views(self.classes@);
        let mut order: Vec<&'b AstNode<'a>> = Vec::new();
        let mut d: usize = 0;
        while d < self.definitions.len()
            invariant
                d <= self.definitions.len(),
                order@.len() == d,
                forall|j: int| 0 <= j < d ==> (#[trigger] order@[j]).view() == self.definitions@[j].view(),
            decreases self.definitions.len() - d,
        {
            order.push(&self.definitions[d]);
            d += 1;
        }
        let ghost definitions = statements_view(self.definitions@);
        assert(borrowed_views(order@) =~= definitions + all_class_nodes(views, 0));
        let mut a: usize = 0;
        while a < self.classes.len()
            invariant
                a <= self.classes.len(),
                views == class_views(self.classes@),
                definitions == statements_view(self.definitions@),
                borrowed_views(order@) == definitions + all_class_nodes(views, a as int),
            decreases self.classes.len() - a,
        {
            let class = &self.classes[a];
            let ghost before = borrowed_views(order@);
            let ghost view = views[a as int];
            push_nodes(&mut order, &class.single);
            let ghost single = borrowed_views(order@);
            let mut b: usize = 0;
            assert(borrowed_views(order@) =~= single + pair_nodes(view.pairs, 0));
            while b < class.pairs.len()
                invariant
                    b <= class.pairs.len(),
                    view == class.view(),
                    borrowed_views(order@) == single + pair_nodes(view.pairs, b as int),
                decreases class.pairs.len() - b,
            {
                let ghost previous = pair_nodes(view.pairs, b as int);
                push_nodes(&mut order, &class.pairs[b].operations);
                proof {
                    assert(view.pairs[b as int].1 == named_views(class.pairs@[b as int].operations@));
                    assert(single + previous + nodes_of(view.pairs[b as int].1) =~= single + (
                    previous + nodes_of(view.pairs[b as int].1)));
                }
                b += 1;
            }
            push_nodes(&mut order, &class.derived);
            proof {
                let pairs = pair_nodes(view.pairs, view.pairs.len() as int);
                assert(borrowed_views(order@) =~= before + class_nodes(view));
                assert(definitions + all_class_nodes(views, a as int) + class_nodes(view)
                    =~= definitions + all_class_nodes(views, a as int + 1));
            }
            a += 1;
        }
        push_nodes(&mut order, &self.compound);
        order
    }
}

/// For the scalar class, `Scale` is derived exactly where the geometric product with
/// the scalar class exists, and it comes first.
pub proof fn lemma_scale_follows_geometric_product(
    known: NamedViews,
    pair: NamedViews,
    a: ParameterView,
    b: ParameterView,
)
    requires
        is_scalar_class(class_of(b.data_type)),
    ensures
        (exists|i: int|
            0 <= i < scaling_step(known, pair, a, b).len() && (#[trigger] scaling_step(
                known,
                pair,
                a,
                b,
            )[i]).0 == "Scale"@) <==> find(pair, "GeometricProduct"@) is Some,
        find(pair, "GeometricProduct"@) matches Some(geometric_product) ==> scaling_step(
            known,
            pair,
            a,
            b,
        )[0] == ("Scale"@, spec_scale("Scale"@, geometric_product, a, b)),
{
    let step = scaling_step(known, pair, a, b);
    if find(pair, "GeometricProduct"@) is Some {
        assert(step[0].0 == "Scale"@);
    }
}

/// Where the operations of class `a` with class `b` hold the products: product `p` of
/// the algebra stands after the conversion, if there is one, and the two sums, and it
/// is the product of the two classes by the table of that product.
pub proof fn lemma_generated_product(
    registry: MultiVectorClassRegistry,
    squares: Seq<isize>,
    a: int,
    b: int,
    p: int,
)
    requires
        0 <= a < registry.classes@.len(),
        0 <= b < registry.classes@.len(),
        0 <= p < 7,
    ensures
        ({
            let operations = spec_class_operations(
                registry,
                spec_involutions(squares.len()),
                spec_products(squares),
                a,
            ).pairs[b].1;
            let place = if a == b {
                2 + p
            } else {
                3 + p
            };
            &&& operations.len() == if a == b {
                9int
            } else {
                10int
            }
            &&& operations[place] == (
                spec_products(squares)[p].0,
                spec_product_operation(
                    spec_products(squares)[p].0,
                    spec_products(squares)[p].1,
                    parameter_of(registry.classes@[a], "self"@),
                    parameter_of(registry.classes@[b], "other"@),
                    registry,
                ),
            )
        }),
{
}

} // verus!
