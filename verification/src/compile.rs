//! The operation synthesiser: for an operation and its operand classes, the tree
//! that computes the operation group by group.

use vstd::prelude::*;
use crate::algebra::{lemma_unit_product, BasisElement};
use crate::ast::{
    parameters_view, AstNode, AstNodeView, DataType, DataTypeView, Expression, ExpressionView,
    Parameter, ParameterView,
};
use crate::class::{
    first_position, indices_of, lemma_first_position, lemma_first_position_is, place_of,
    position_of_index, sort_indices, sorted_indices, unique_indices, unit_scalars,
    without_repetitions, MultiVectorClass, MultiVectorClassRegistry,
};
use crate::involution::Involution;
use crate::simplify::{lemma_simplify_keeps_size, simplify_and_legalize, spec_simplify};
use crate::tree::{
    arguments_view, class_call, constant, divide, gather, multiply, operation, one_statement,
    return_statement, same_text, spec_add, spec_constant, spec_constructor, spec_divide,
    spec_gather, spec_multiply, spec_operation, spec_return, spec_subtract, spec_variable,
    subtract, sum, variable,
};

verus! {

/// The values of a constant for one group: `scalar_value` in the lane of the scalar
/// element, zero elsewhere.
pub open spec fn constant_values(group: Seq<BasisElement>, scalar_value: isize) -> Seq<isize> {
    group.map_values(
        |element: BasisElement|
            if element.index == 0 {
                scalar_value
            } else {
                0isize
            },
    )
}

/// The expression of a constant for one group.
pub open spec fn constant_group(group: Seq<BasisElement>, scalar_value: isize) -> ExpressionView {
    spec_simplify(spec_constant(group.len() as usize, constant_values(group, scalar_value)))
}

/// The operation that returns the constant `Zero` or `One` of a class.
pub open spec fn spec_class_constant(class: MultiVectorClass, name: Seq<char>) -> AstNodeView {
    let scalar_value = if name == "One"@ {
        1isize
    } else {
        0isize
    };
    spec_operation(
        name,
        DataTypeView::MultiVector(class),
        Seq::empty(),
        seq![
            spec_return(
                spec_constructor(
                    class,
                    class.spec_groups().map_values(
                        |group: Seq<BasisElement>| constant_group(group, scalar_value),
                    ),
                ),
            ),
        ],
    )
}

/// The arguments of the pairs of an involution.
pub open spec fn arguments_of(terms: Seq<(BasisElement, BasisElement)>) -> Seq<BasisElement> {
    terms.map_values(|term: (BasisElement, BasisElement)| term.0)
}

/// The images of the pairs of an involution.
pub open spec fn images_of(terms: Seq<(BasisElement, BasisElement)>) -> Seq<BasisElement> {
    terms.map_values(|term: (BasisElement, BasisElement)| term.1)
}

/// The class of a multivector type.
pub open spec fn class_of(data_type: DataTypeView) -> MultiVectorClass {
    data_type->MultiVector_0
}

/// The indices of the images of the elements of the operand, in the order of the
/// operand; an element that the involution does not know adds nothing.
pub open spec fn recorded_images(
    operand: Seq<BasisElement>,
    terms: Seq<(BasisElement, BasisElement)>,
) -> Seq<u16>
    decreases operand.len(),
{
    if operand.len() == 0 {
        Seq::empty()
    } else {
        let front = recorded_images(operand.drop_last(), terms);
        match first_position(arguments_of(terms), operand.last().index) {
            Some(t) => front.push(terms[t].1.index),
            None => front,
        }
    }
}

/// Whether the operand holds every argument of the involution.
pub open spec fn covers_arguments(
    operand: Seq<BasisElement>,
    terms: Seq<(BasisElement, BasisElement)>,
) -> bool {
    forall|t: int|
        0 <= t < terms.len() ==> first_position(operand, (#[trigger] terms[t]).0.index) is Some
}

/// The factor and the source lane of one lane of the result: the pair of the
/// involution whose image has the index of the lane, and the place of its argument
/// in the operand. `None` where the involution or the operand lacks it.
pub open spec fn involution_lane(
    terms: Seq<(BasisElement, BasisElement)>,
    operand: MultiVectorClass,
    result_element: BasisElement,
) -> Option<(isize, (usize, usize))> {
    match first_position(images_of(terms), result_element.index) {
        Some(t) => match first_position(operand.spec_flat_basis(), terms[t].0.index) {
            Some(p) => Some(
                (
                    (terms[t].1.scalar * result_element.scalar * terms[t].0.scalar
                        * operand.spec_flat_basis()[p].scalar) as isize,
                    place_of(operand.spec_groups(), p),
                ),
            ),
            None => None,
        },
        None => None,
    }
}

/// The factor of a lane; zero where the lane has no source.
pub open spec fn lane_factor(lane: Option<(isize, (usize, usize))>) -> isize {
    match lane {
        Some(found) => found.0,
        None => 0,
    }
}

/// The source of a lane; the first lane of the first group where the lane has no source.
pub open spec fn lane_pair(lane: Option<(isize, (usize, usize))>) -> (usize, usize) {
    match lane {
        Some(found) => found.1,
        None => (0, 0),
    }
}

/// Whether every lane of the result has a source.
pub open spec fn all_lanes_sourced(
    terms: Seq<(BasisElement, BasisElement)>,
    operand: MultiVectorClass,
    result: MultiVectorClass,
) -> bool {
    forall|g: int, k: int|
        0 <= g < result.spec_groups().len() && 0 <= k < result.spec_groups()[g].len()
            ==> involution_lane(terms, operand, #[trigger] result.spec_groups()[g][k]) is Some
}

/// The expression of one group of the result of an involution: the source lanes
/// gathered from the operand, times their factors.
pub open spec fn involution_group(
    terms: Seq<(BasisElement, BasisElement)>,
    operand: MultiVectorClass,
    operand_name: Seq<char>,
    group: Seq<BasisElement>,
) -> ExpressionView {
    let size = group.len() as usize;
    let pairs = group.map_values(
        |element: BasisElement| lane_pair(involution_lane(terms, operand, element)),
    );
    let factors = group.map_values(
        |element: BasisElement| lane_factor(involution_lane(terms, operand, element)),
    );
    let source = spec_variable(operand_name, operand.spec_groups()[pairs[0].0 as int].len() as usize);
    spec_simplify(spec_multiply(size, spec_gather(size, source, pairs), spec_constant(size, factors)))
}

/// The operation that applies an involution to a multivector, or `Empty`: when
/// projecting and the operand lacks an argument of the involution, when no class has
/// the signature of the images, or when a lane of that class has no source.
pub open spec fn spec_involution(
    name: Seq<char>,
    terms: Seq<(BasisElement, BasisElement)>,
    parameter: ParameterView,
    registry: MultiVectorClassRegistry,
    project: bool,
) -> AstNodeView {
    let operand = class_of(parameter.data_type);
    if project && !covers_arguments(operand.spec_flat_basis(), terms) {
        AstNodeView::Empty
    } else {
        match registry.spec_get(sorted_indices(recorded_images(operand.spec_flat_basis(), terms))) {
            None => AstNodeView::Empty,
            Some(result) => if !all_lanes_sourced(terms, operand, result) {
                AstNodeView::Empty
            } else {
                spec_operation(
                    name,
                    DataTypeView::MultiVector(result),
                    seq![parameter],
                    seq![
                        spec_return(
                            spec_constructor(
                                result,
                                result.spec_groups().map_values(
                                    |group: Seq<BasisElement>|
                                        involution_group(terms, operand, parameter.name, group),
                                ),
                            ),
                        ),
                    ],
                )
            },
        }
    }
}

/// The signature of an element-wise operation: the indices of both operands, each once,
/// in ascending order.
pub open spec fn union_signature(a: Seq<BasisElement>, b: Seq<BasisElement>) -> Seq<u16> {
    sorted_indices(without_repetitions(indices_of(a + b)))
}

/// The factor and the source lane of one lane of an element-wise operand: the place
/// of the element with the index of the lane and the product of the two signs; a
/// factor of zero where the operand lacks the element.
pub open spec fn element_wise_lane(operand: MultiVectorClass, result_element: BasisElement) -> (
    isize,
    (usize, usize),
) {
    match first_position(operand.spec_flat_basis(), result_element.index) {
        Some(p) => (
            (result_element.scalar * operand.spec_flat_basis()[p].scalar) as isize,
            place_of(operand.spec_groups(), p),
        ),
        None => (0, (0, 0)),
    }
}

/// The group of the operand from which the last lane that has a source takes it.
pub open spec fn last_source_group(operand: MultiVectorClass, group: Seq<BasisElement>) -> Option<
    usize,
>
    decreases group.len(),
{
    if group.len() == 0 {
        None
    } else {
        match first_position(operand.spec_flat_basis(), group.last().index) {
            Some(p) => Some(place_of(operand.spec_groups(), p).0),
            None => last_source_group(operand, group.drop_last()),
        }
    }
}

/// One operand of an element-wise operation, brought into the layout of a group of the
/// result: its lanes gathered, times their factors.
pub open spec fn element_wise_operand(
    operand: MultiVectorClass,
    operand_name: Seq<char>,
    group: Seq<BasisElement>,
) -> ExpressionView {
    let size = group.len() as usize;
    let pairs = group.map_values(|element: BasisElement| element_wise_lane(operand, element).1);
    let factors = group.map_values(|element: BasisElement| element_wise_lane(operand, element).0);
    let source_size = match last_source_group(operand, group) {
        Some(g) => operand.spec_groups()[g as int].len() as usize,
        None => size,
    };
    spec_multiply(
        size,
        spec_gather(size, spec_variable(operand_name, source_size), pairs),
        spec_constant(size, factors),
    )
}

/// The expression of one group of the result of an element-wise operation.
pub open spec fn element_wise_group(
    name: Seq<char>,
    a: ParameterView,
    b: ParameterView,
    group: Seq<BasisElement>,
) -> ExpressionView {
    let size = group.len() as usize;
    let left = element_wise_operand(class_of(a.data_type), a.name, group);
    let right = element_wise_operand(class_of(b.data_type), b.name, group);
    spec_simplify(
        if name == "Add"@ {
            spec_add(size, left, right)
        } else if name == "Sub"@ {
            spec_subtract(size, left, right)
        } else if name == "Mul"@ {
            spec_multiply(size, left, right)
        } else {
            spec_divide(size, left, right)
        },
    )
}

/// The element-wise operation `Add`, `Sub`, `Mul` or `Div` of two multivectors, or
/// `Empty` where no class has exactly the indices of both operands.
pub open spec fn spec_element_wise(
    name: Seq<char>,
    a: ParameterView,
    b: ParameterView,
    registry: MultiVectorClassRegistry,
) -> AstNodeView {
    match registry.spec_get(
        union_signature(
            class_of(a.data_type).spec_flat_basis(),
            class_of(b.data_type).spec_flat_basis(),
        ),
    ) {
        None => AstNodeView::Empty,
        Some(result) => spec_operation(
            name,
            DataTypeView::MultiVector(result),
            seq![a, b],
            seq![
                spec_return(
                    spec_constructor(
                        result,
                        result.spec_groups().map_values(
                            |group: Seq<BasisElement>| element_wise_group(name, a, b, group),
                        ),
                    ),
                ),
            ],
        ),
    }
}

/// The product of two scalars that are `-1`, `0` or `+1`.
pub fn unit_times(x: isize, y: isize) -> (product: isize)
    requires
        -1 <= x <= 1,
        -1 <= y <= 1,
    ensures
        product == x * y,
        -1 <= product <= 1,
{
    proof {
        lemma_unit_product(x as int, y as int);
    }
    x * y
}

fn position_of_argument(terms: &Vec<(BasisElement, BasisElement)>, index: u16) -> (position: Option<
    usize,
>)
    ensures
        match position {
            Some(t) => first_position(arguments_of(terms@), index) == Some(t as int) && t
                < terms@.len(),
            None => first_position(arguments_of(terms@), index) is None,
        },
{
    let mut i: usize = 0;
    while i < terms.len()
        invariant
            i <= terms.len(),
            forall|j: int| 0 <= j < i ==> arguments_of(terms@)[j].index != index,
        decreases terms.len() - i,
    {
        if terms[i].0.index == index {
            proof {
                lemma_first_position_is(arguments_of(terms@), index, i as int);
            }
            return Some(i);
        }
        i += 1;
    }
    proof {
        lemma_first_position(arguments_of(terms@), index);
    }
    None
}

fn position_of_image(terms: &Vec<(BasisElement, BasisElement)>, index: u16) -> (position: Option<
    usize,
>)
    ensures
        match position {
            Some(t) => first_position(images_of(terms@), index) == Some(t as int) && t
                < terms@.len(),
            None => first_position(images_of(terms@), index) is None,
        },
{
    let mut i: usize = 0;
    while i < terms.len()
        invariant
            i <= terms.len(),
            forall|j: int| 0 <= j < i ==> images_of(terms@)[j].index != index,
        decreases terms.len() - i,
    {
        if terms[i].1.index == index {
            proof {
                lemma_first_position_is(images_of(terms@), index, i as int);
            }
            return Some(i);
        }
        i += 1;
    }
    proof {
        lemma_first_position(images_of(terms@), index);
    }
    None
}

/// One operand of an element-wise operation, laid out for a group of the result.
fn element_wise_operand_expression<'a>(
    parameter: &Parameter<'a>,
    flat_basis: &Vec<BasisElement>,
    group: &Vec<BasisElement>,
) -> (expression: Expression<'a>)
    requires
        parameter.data_type is MultiVector,
        class_of(parameter.view().data_type).well_formed(),
        flat_basis@ == class_of(parameter.view().data_type).spec_flat_basis(),
        unit_scalars(group@),
    ensures
        expression.view() == element_wise_operand(
            class_of(parameter.view().data_type),
            parameter.name@,
            group@,
        ),
{
    let operand = parameter.multi_vector_class();
    let size: usize = group.len();
    let mut factors: Vec<isize> = Vec::new();
    let mut pairs: Vec<(usize, usize)> = Vec::new();
    let mut source_group: Option<usize> = None;
    let mut lane: usize = 0;
    assert(group@.take(0) =~= Seq::empty());
    while lane < size
        invariant
            lane <= size,
            size == group@.len(),
            operand.well_formed(),
            flat_basis@ == operand.spec_flat_basis(),
            unit_scalars(group@),
            factors@.len() == lane,
            pairs@.len() == lane,
            forall|k: int|
                0 <= k < lane ==> element_wise_lane(*operand, #[trigger] group@[k]) == (
                    factors@[k],
                    pairs@[k],
                ),
            source_group == last_source_group(*operand, group@.take(lane as int)),
            source_group matches Some(g) ==> g < operand.spec_groups().len(),
        decreases size - lane,
    {
        let result_element = group[lane];
        proof {
            assert(group@.take(lane as int + 1).drop_last() =~= group@.take(lane as int));
            lemma_first_position(flat_basis@, result_element.index);
        }
        match position_of_index(flat_basis, result_element.index) {
            Some(p) => {
                let pair = operand.index_in_group(p);
                source_group = Some(pair.0);
                factors.push(unit_times(result_element.scalar, flat_basis[p].scalar));
                pairs.push(pair);
            },
            None => {
                factors.push(0);
                pairs.push((0, 0));
            },
        }
        lane += 1;
    }
    proof {
        assert(group@.take(size as int) =~= group@);
        assert(pairs@ =~= group@.map_values(
            |element: BasisElement| element_wise_lane(*operand, element).1,
        ));
        assert(factors@ =~= group@.map_values(
            |element: BasisElement| element_wise_lane(*operand, element).0,
        ));
    }
    let source_size: usize = match source_group {
        Some(g) => {
            assert(operand.grouped_basis@[g as int]@ == operand.spec_groups()[g as int]);
            operand.grouped_basis[g].len()
        },
        None => size,
    };
    multiply(
        size,
        gather(size, variable(parameter.name, source_size), pairs),
        constant(size, factors),
    )
}

/// Wraps the expressions of the groups of a class into the operation that returns the
/// multivector built from them.
pub(crate) fn constructor_operation<'a>(
    name: &'static str,
    class: &'a MultiVectorClass,
    parameters: Vec<crate::ast::Parameter<'a>>,
    groups: Vec<(DataType<'a>, Expression<'a>)>,
    Ghost(values): Ghost<Seq<ExpressionView>>,
) -> (node: AstNode<'a>)
    requires
        groups@.len() == values.len(),
        forall|i: int|
            0 <= i < values.len() ==> (#[trigger] groups@[i]).1.view() == values[i]
                && groups@[i].0.view() == DataTypeView::SimdVector(values[i].size),
    ensures
        node.view() == spec_operation(
            name@,
            DataTypeView::MultiVector(*class),
            crate::ast::parameters_view(parameters@),
            seq![spec_return(spec_constructor(*class, values))],
        ),
{
    assert(arguments_view(groups@) =~= values.map_values(
        |group: ExpressionView| (DataTypeView::SimdVector(group.size), group),
    ));
    let call = class_call(class, "Constructor", groups);
    operation(name, DataType::MultiVector(class), parameters, one_statement(return_statement(call)))
}

impl MultiVectorClass {
    /// The operation that returns the constant `Zero` (all lanes zero) or `One` (the
    /// lane of the scalar element one, all others zero) of the class.
    pub fn constant<'a>(&'a self, name: &'static str) -> (node: AstNode<'a>)
        requires
            name@ == "Zero"@ || name@ == "One"@,
        ensures
            node.view() == spec_class_constant(*self, name@),
    {
        let scalar_value: isize = if same_text(name, "One") {
            1
        } else {
            0
        };
        let mut body: Vec<(DataType<'a>, Expression<'a>)> = Vec::new();
        let ghost mut values: Seq<ExpressionView> = Seq::empty();
        let mut g: usize = 0;
        while g < self.grouped_basis.len()
            invariant
                g <= self.grouped_basis.len(),
                body@.len() == g,
                values.len() == g,
                forall|i: int|
                    0 <= i < g ==> (#[trigger] body@[i]).1.view() == values[i] && body@[i].0.view()
                        == DataTypeView::SimdVector(values[i].size),
                forall|i: int|
                    0 <= i < g ==> values[i] == constant_group(self.spec_groups()[i], scalar_value),
            decreases self.grouped_basis.len() - g,
        {
            let group = &self.grouped_basis[g];
            let size: usize = group.len();
            let mut group_values: Vec<isize> = Vec::new();
            let mut lane: usize = 0;
            while lane < size
                invariant
                    lane <= size,
                    size == group@.len(),
                    group_values@.len() == lane,
                    forall|k: int|
                        0 <= k < lane ==> group_values@[k] == constant_values(group@, scalar_value)[k],
                decreases size - lane,
            {
                group_values.push(
                    if group[lane].index == 0 {
                        scalar_value
                    } else {
                        0
                    },
                );
                lane += 1;
            }
            assert(group_values@ =~= constant_values(group@, scalar_value));
            let expression = simplify_and_legalize(Box::new(constant(size, group_values)));
            proof {
                lemma_simplify_keeps_size(spec_constant(size, group_values@));
                values = values.push(expression.view());
            }
            body.push((DataType::SimdVector(size), *expression));
            g += 1;
        }
        assert(values =~= self.spec_groups().map_values(
            |group: Seq<BasisElement>| constant_group(group, scalar_value),
        ));
        let parameters: Vec<crate::ast::Parameter<'a>> = Vec::new();
        assert(crate::ast::parameters_view(parameters@) =~= Seq::empty());
        constructor_operation(name, self, parameters, body, Ghost(values))
    }
}

impl MultiVectorClass {
    /// The operation that applies an involution, or a projection onto another class, to
    /// a multivector of the class of `parameter_a`. The result is `Empty` where no
    /// registered class has exactly the indices of the images.
    #[verifier::loop_isolation(false)]
    pub fn involution<'a>(
        name: &'static str,
        involution: &Involution,
        parameter_a: &Parameter<'a>,
        registry: &'a MultiVectorClassRegistry,
        project: bool,
    ) -> (node: AstNode<'a>)
        requires
            parameter_a.data_type is MultiVector,
            class_of(parameter_a.view().data_type).well_formed(),
            registry.valid(),
            unit_scalars(arguments_of(involution.terms@)),
            unit_scalars(images_of(involution.terms@)),
        ensures
            node.view() == spec_involution(
                name@,
                involution.terms@,
                parameter_a.view(),
                *registry,
                project,
            ),
    {
        let operand = parameter_a.multi_vector_class();
        let ghost terms = involution.terms@;
        let a_flat_basis = operand.flat_basis();
        let mut recorded: Vec<u16> = Vec::new();
        let mut i: usize = 0;
        assert(a_flat_basis@.take(0) =~= Seq::empty());
        while i < a_flat_basis.len()
            invariant
                i <= a_flat_basis.len(),
                terms == involution.terms@,
                recorded@ == recorded_images(a_flat_basis@.take(i as int), terms),
            decreases a_flat_basis.len() - i,
        {
            proof {
                assert(a_flat_basis@.take(i as int + 1).drop_last() =~= a_flat_basis@.take(i as int));
            }
            match position_of_argument(&involution.terms, a_flat_basis[i].index) {
                Some(t) => {
                    recorded.push(involution.terms[t].1.index);
                },
                None => {},
            }
            i += 1;
        }
        assert(a_flat_basis@.take(a_flat_basis.len() as int) =~= a_flat_basis@);
        if project {
            let mut t: usize = 0;
            while t < involution.terms.len()
                invariant
                    t <= involution.terms.len(),
                    terms == involution.terms@,
                    forall|j: int|
                        0 <= j < t ==> first_position(a_flat_basis@, (#[trigger] terms[j]).0.index) is Some,
                decreases involution.terms.len() - t,
            {
                if position_of_index(&a_flat_basis, involution.terms[t].0.index).is_none() {
                    assert(first_position(a_flat_basis@, terms[t as int].0.index) is None);
                    return AstNode::Empty;
                }
                t += 1;
            }
        }
        let signature = sort_indices(&recorded);
        let result_class = match registry.get(signature.as_slice()) {
            Some(class) => class,
            None => {
                return AstNode::Empty;
            },
        };
        proof {
            registry.lemma_found_class(signature@);
        }
        let mut body: Vec<(DataType<'a>, Expression<'a>)> = Vec::new();
        let ghost mut values: Seq<ExpressionView> = Seq::empty();
        let mut g: usize = 0;
        while g < result_class.grouped_basis.len()
            invariant
                g <= result_class.grouped_basis.len(),
                terms == involution.terms@,
                a_flat_basis@ == operand.spec_flat_basis(),
                operand.well_formed(),
                result_class.well_formed(),
                unit_scalars(arguments_of(terms)),
                unit_scalars(images_of(terms)),
                body@.len() == g,
                values.len() == g,
                forall|i: int|
                    0 <= i < g ==> (#[trigger] body@[i]).1.view() == values[i] && body@[i].0.view()
                        == DataTypeView::SimdVector(values[i].size),
                forall|i: int|
                    0 <= i < g ==> values[i] == involution_group(
                        terms,
                        *operand,
                        parameter_a.name@,
                        result_class.spec_groups()[i],
                    ),
                forall|i: int, k: int|
                    0 <= i < g && 0 <= k < result_class.spec_groups()[i].len() ==> involution_lane(
                        terms,
                        *operand,
                        #[trigger] result_class.spec_groups()[i][k],
                    ) is Some,
            decreases result_class.grouped_basis.len() - g,
        {
            let group = &result_class.grouped_basis[g];
            let size: usize = group.len();
            assert(group@ == result_class.spec_groups()[g as int]);
            let mut factors: Vec<isize> = Vec::new();
            let mut pairs: Vec<(usize, usize)> = Vec::new();
            let mut lane: usize = 0;
            while lane < size
                invariant
                    lane <= size,
                    size == group@.len(),
                    g < result_class.grouped_basis.len(),
                    group@ == result_class.spec_groups()[g as int],
                    terms == involution.terms@,
                    a_flat_basis@ == operand.spec_flat_basis(),
                    operand.well_formed(),
                    result_class.well_formed(),
                    unit_scalars(arguments_of(terms)),
                    unit_scalars(images_of(terms)),
                    factors@.len() == lane,
                    pairs@.len() == lane,
                    forall|k: int|
                        0 <= k < lane ==> involution_lane(terms, *operand, #[trigger] group@[k])
                            == Some((factors@[k], pairs@[k])),
                    forall|k: int| 0 <= k < lane ==> (#[trigger] pairs@[k]).0 < operand.spec_groups().len(),
                decreases size - lane,
            {
                let result_element = group[lane];
                let t = match position_of_image(&involution.terms, result_element.index) {
                    Some(t) => t,
                    None => {
                        assert(involution_lane(
                            terms,
                            *operand,
                            result_class.spec_groups()[g as int][lane as int],
                        ) is None);
                        return AstNode::Empty;
                    },
                };
                let in_element = involution.terms[t].0;
                let out_element = involution.terms[t].1;
                let index_in_a = match position_of_index(&a_flat_basis, in_element.index) {
                    Some(p) => p,
                    None => {
                        assert(involution_lane(
                            terms,
                            *operand,
                            result_class.spec_groups()[g as int][lane as int],
                        ) is None);
                        return AstNode::Empty;
                    },
                };
                proof {
                    lemma_first_position(a_flat_basis@, in_element.index);
                    assert(arguments_of(terms)[t as int] == in_element);
                    assert(images_of(terms)[t as int] == out_element);
                    crate::class::lemma_group_in_flat(
                        result_class.spec_groups(),
                        g as int,
                        lane as int,
                    );
                }
                let factor = unit_times(
                    unit_times(
                        unit_times(out_element.scalar, result_element.scalar),
                        in_element.scalar,
                    ),
                    a_flat_basis[index_in_a].scalar,
                );
                let pair = operand.index_in_group(index_in_a);
                factors.push(factor);
                pairs.push(pair);
                lane += 1;
            }
            let ghost group_pairs = group@.map_values(
                |element: BasisElement| lane_pair(involution_lane(terms, *operand, element)),
            );
            let ghost group_factors = group@.map_values(
                |element: BasisElement| lane_factor(involution_lane(terms, *operand, element)),
            );
            assert(pairs@ =~= group_pairs);
            assert(factors@ =~= group_factors);
            let a_group_index: usize = pairs[0].0;
            assert(operand.grouped_basis@[a_group_index as int]@ == operand.spec_groups()[a_group_index as int]);
            let source = variable(parameter_a.name, operand.grouped_basis[a_group_index].len());
            let ghost unsimplified = spec_multiply(
                size,
                spec_gather(size, source.view(), pairs@),
                spec_constant(size, factors@),
            );
            let expression = simplify_and_legalize(
                Box::new(multiply(size, gather(size, source, pairs), constant(size, factors))),
            );
            proof {
                reveal_with_fuel(crate::simplify::lanes_agree, 3);
                lemma_simplify_keeps_size(unsimplified);
                values = values.push(expression.view());
            }
            body.push((DataType::SimdVector(size), *expression));
            g += 1;
        }
        assert(values =~= result_class.spec_groups().map_values(
            |group: Seq<BasisElement>| involution_group(terms, *operand, parameter_a.name@, group),
        ));
        let parameters = vec![*parameter_a];
        assert(parameters_view(parameters@) =~= seq![parameter_a.view()]);
        constructor_operation(name, result_class, parameters, body, Ghost(values))
    }
}

impl MultiVectorClass {
    /// The element-wise operation `Add`, `Sub`, `Mul` or `Div` of two multivectors. The
    /// result has the indices of both operands; it is `Empty` where no registered class
    /// has exactly these.
    #[verifier::loop_isolation(false)]
    pub fn element_wise<'a>(
        name: &'static str,
        parameter_a: &Parameter<'a>,
        parameter_b: &Parameter<'a>,
        registry: &'a MultiVectorClassRegistry,
    ) -> (node: AstNode<'a>)
        requires
            name@ == "Add"@ || name@ == "Sub"@ || name@ == "Mul"@ || name@ == "Div"@,
            parameter_a.data_type is MultiVector,
            parameter_b.data_type is MultiVector,
            class_of(parameter_a.view().data_type).well_formed(),
            class_of(parameter_b.view().data_type).well_formed(),
            registry.valid(),
        ensures
            node.view() == spec_element_wise(
                name@,
                parameter_a.view(),
                parameter_b.view(),
                *registry,
            ),
    {
        let a_flat_basis = parameter_a.multi_vector_class().flat_basis();
        let b_flat_basis = parameter_b.multi_vector_class().flat_basis();
        let mut indices: Vec<u16> = Vec::new();
        let mut i: usize = 0;
        while i < a_flat_basis.len()
            invariant
                i <= a_flat_basis.len(),
                indices@ == indices_of(a_flat_basis@.take(i as int)),
            decreases a_flat_basis.len() - i,
        {
            indices.push(a_flat_basis[i].index);
            assert(indices@ =~= indices_of(a_flat_basis@.take(i as int + 1)));
            i += 1;
        }
        assert(a_flat_basis@.take(a_flat_basis.len() as int) =~= a_flat_basis@);
        let mut j: usize = 0;
        while j < b_flat_basis.len()
            invariant
                j <= b_flat_basis.len(),
                indices@ == indices_of(a_flat_basis@ + b_flat_basis@.take(j as int)),
            decreases b_flat_basis.len() - j,
        {
            indices.push(b_flat_basis[j].index);
            assert(indices@ =~= indices_of(a_flat_basis@ + b_flat_basis@.take(j as int + 1)));
            j += 1;
        }
        assert(b_flat_basis@.take(b_flat_basis.len() as int) =~= b_flat_basis@);
        let signature = sort_indices(&unique_indices(&indices));
        let result_class = match registry.get(signature.as_slice()) {
            Some(class) => class,
            None => {
                return AstNode::Empty;
            },
        };
        proof {
            registry.lemma_found_class(signature@);
        }
        let mut body: Vec<(DataType<'a>, Expression<'a>)> = Vec::new();
        let ghost mut values: Seq<ExpressionView> = Seq::empty();
        let mut g: usize = 0;
        while g < result_class.grouped_basis.len()
            invariant
                g <= result_class.grouped_basis.len(),
                body@.len() == g,
                values.len() == g,
                forall|i: int|
                    0 <= i < g ==> (#[trigger] body@[i]).1.view() == values[i] && body@[i].0.view()
                        == DataTypeView::SimdVector(values[i].size),
                forall|i: int|
                    0 <= i < g ==> values[i] == element_wise_group(
                        name@,
                        parameter_a.view(),
                        parameter_b.view(),
                        result_class.spec_groups()[i],
                    ),
            decreases result_class.grouped_basis.len() - g,
        {
            let group = &result_class.grouped_basis[g];
            let size: usize = group.len();
            proof {
                assert(group@ == result_class.spec_groups()[g as int]);
                assert forall|k: int| 0 <= k < group@.len() implies -1 <= (
                #[trigger] group@[k]).scalar <= 1 by {
                    crate::class::lemma_group_in_flat(result_class.spec_groups(), g as int, k);
                }
            }
            let left = element_wise_operand_expression(parameter_a, &a_flat_basis, group);
            let right = element_wise_operand_expression(parameter_b, &b_flat_basis, group);
            let ghost left_view = left.view();
            let ghost right_view = right.view();
            let combined = if same_text(name, "Add") {
                sum(size, left, right)
            } else if same_text(name, "Sub") {
                subtract(size, left, right)
            } else if same_text(name, "Mul") {
                multiply(size, left, right)
            } else {
                divide(size, left, right)
            };
            let ghost unsimplified = combined.view();
            let expression = simplify_and_legalize(Box::new(combined));
            proof {
                reveal_with_fuel(crate::simplify::lanes_agree, 4);
                lemma_simplify_keeps_size(unsimplified);
                values = values.push(expression.view());
            }
            body.push((DataType::SimdVector(size), *expression));
            g += 1;
        }
        assert(values =~= result_class.spec_groups().map_values(
            |group: Seq<BasisElement>|
                element_wise_group(name@, parameter_a.view(), parameter_b.view(), group),
        ));
        let parameters = vec![*parameter_a, *parameter_b];
        assert(parameters_view(parameters@) =~= seq![parameter_a.view(), parameter_b.view()]);
        constructor_operation(name, result_class, parameters, body, Ghost(values))
    }
}

} // verus!
