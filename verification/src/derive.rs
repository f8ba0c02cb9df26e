//! Derived operations: operations put together from operations that were synthesised
//! before, as calls of those.

use vstd::prelude::*;
use crate::ast::{
    parameters_view, AstNode, AstNodeView, DataType, DataTypeView, Expression, ExpressionView,
    Parameter, ParameterView,
};
use crate::class::MultiVectorClass;
use crate::compile::class_of;
use crate::tree::{
    access, assignment, class_call, constant, conversion, divide, equal, if_then, integer,
    less_than, logic_and, method_call, no_arguments, no_statements, one_argument, one_statement,
    operation, push_statement, result_of_trait, return_statement, select, shift_right,
    spec_access, spec_class_call, spec_constant, spec_conversion, spec_divide, spec_equal,
    spec_integer, spec_less_than, spec_logic_and, spec_method_call, spec_operation, spec_return,
    spec_select, spec_shift_right, spec_square_root, spec_variable, square_root, statements_view,
    variable, while_loop,
};

verus! {

/// The result of an operation: its name and type.
pub open spec fn result_of(node: AstNodeView) -> ParameterView {
    node->result
}

/// `value.method()`: a call without arguments on the variable `value`.
pub open spec fn spec_call(value: ParameterView, method: Seq<char>) -> ExpressionView {
    spec_method_call(value.data_type, spec_variable(value.name, 1), method, Seq::empty())
}

/// `value.method(argument)`: a call with one argument on the variable `value`.
pub open spec fn spec_call_with(
    value: ParameterView,
    method: Seq<char>,
    argument_type: DataTypeView,
    argument: ExpressionView,
) -> ExpressionView {
    spec_method_call(
        value.data_type,
        spec_variable(value.name, 1),
        method,
        seq![(argument_type, argument)],
    )
}

/// A multivector of a class with one group of one lane, built from that lane.
pub open spec fn spec_scalar_constructor(class: MultiVectorClass, lane: ExpressionView) -> ExpressionView {
    spec_class_call(class, "Constructor"@, seq![(DataTypeView::SimdVector(1), lane)])
}

/// `1 / value.method()[0]`: the inverse of the first lane of a call.
pub open spec fn spec_reciprocal(value: ParameterView, method: Seq<char>) -> ExpressionView {
    spec_divide(1, spec_constant(1, seq![1isize]), spec_access(spec_call(value, method), 0))
}

/// An operation that returns one expression.
pub open spec fn spec_returning(
    name: Seq<char>,
    result_type: DataTypeView,
    parameters: Seq<ParameterView>,
    expression: ExpressionView,
) -> AstNodeView {
    spec_operation(name, result_type, parameters, seq![spec_return(expression)])
}

/// `a.scalar_product(a.reversal())`.
pub open spec fn spec_squared_magnitude(
    name: Seq<char>,
    scalar_product: AstNodeView,
    involution: AstNodeView,
    a: ParameterView,
) -> AstNodeView {
    spec_returning(
        name,
        result_of(scalar_product).data_type,
        seq![a],
        spec_call_with(
            a,
            result_of(scalar_product).name,
            result_of(involution).data_type,
            spec_call(a, result_of(involution).name),
        ),
    )
}

/// `a.geometric_product(B(other))`, where `other` is one lane.
pub open spec fn spec_scale(
    name: Seq<char>,
    geometric_product: AstNodeView,
    a: ParameterView,
    b: ParameterView,
) -> AstNodeView {
    spec_returning(
        name,
        result_of(geometric_product).data_type,
        seq![a, ParameterView { name: "other"@, data_type: DataTypeView::SimdVector(1) }],
        spec_call_with(
            a,
            result_of(geometric_product).name,
            b.data_type,
            spec_scalar_constructor(class_of(b.data_type), spec_variable(b.name, 1)),
        ),
    )
}

/// The class of the squared magnitude, built from `sqrt(a.squared_magnitude()[0])`.
pub open spec fn spec_magnitude(
    name: Seq<char>,
    squared_magnitude: AstNodeView,
    a: ParameterView,
) -> AstNodeView {
    spec_returning(
        name,
        result_of(squared_magnitude).data_type,
        seq![a],
        spec_scalar_constructor(
            class_of(result_of(squared_magnitude).data_type),
            spec_square_root(spec_access(spec_call(a, result_of(squared_magnitude).name), 0)),
        ),
    )
}

/// `a.geometric_product(S(1 / a.magnitude()[0]))`.
pub open spec fn spec_signum(
    name: Seq<char>,
    geometric_product: AstNodeView,
    magnitude: AstNodeView,
    a: ParameterView,
) -> AstNodeView {
    spec_returning(
        name,
        result_of(geometric_product).data_type,
        seq![a],
        spec_call_with(
            a,
            result_of(geometric_product).name,
            result_of(magnitude).data_type,
            spec_scalar_constructor(
                class_of(result_of(magnitude).data_type),
                spec_reciprocal(a, result_of(magnitude).name),
            ),
        ),
    )
}

/// `a.reversal().geometric_product(S(1 / a.squared_magnitude()[0]))`.
pub open spec fn spec_inverse(
    name: Seq<char>,
    geometric_product: AstNodeView,
    squared_magnitude: AstNodeView,
    involution: AstNodeView,
    a: ParameterView,
) -> AstNodeView {
    spec_returning(
        name,
        result_of(geometric_product).data_type,
        seq![a],
        spec_method_call(
            result_of(involution).data_type,
            spec_call(a, result_of(involution).name),
            result_of(geometric_product).name,
            seq![
                (
                    result_of(squared_magnitude).data_type,
                    spec_scalar_constructor(
                        class_of(result_of(squared_magnitude).data_type),
                        spec_reciprocal(a, result_of(squared_magnitude).name),
                    ),
                ),
            ],
        ),
    )
}

/// `a.geometric_product(b.inverse())`.
pub open spec fn spec_division(
    name: Seq<char>,
    geometric_product: AstNodeView,
    inverse: AstNodeView,
    a: ParameterView,
    b: ParameterView,
) -> AstNodeView {
    spec_returning(
        name,
        result_of(geometric_product).data_type,
        seq![a, b],
        spec_call_with(
            a,
            result_of(geometric_product).name,
            result_of(inverse).data_type,
            spec_call(b, result_of(inverse).name),
        ),
    )
}

/// `a.geometric_product(b).geometric_product(a.reversal())`.
pub open spec fn spec_sandwich(
    geometric_product: AstNodeView,
    geometric_product_2: AstNodeView,
    involution: AstNodeView,
    a: ParameterView,
    b: ParameterView,
) -> ExpressionView {
    spec_method_call(
        result_of(geometric_product).data_type,
        spec_call_with(
            a,
            result_of(geometric_product).name,
            b.data_type,
            spec_variable(b.name, 1),
        ),
        result_of(geometric_product_2).name,
        seq![(result_of(involution).data_type, spec_call(a, result_of(involution).name))],
    )
}

/// The sandwich product, converted into the class of the conversion where one is given.
pub open spec fn spec_sandwich_product(
    name: Seq<char>,
    geometric_product: AstNodeView,
    geometric_product_2: AstNodeView,
    involution: AstNodeView,
    conversion: Option<AstNodeView>,
    a: ParameterView,
    b: ParameterView,
) -> AstNodeView {
    let product = spec_sandwich(geometric_product, geometric_product_2, involution, a, b);
    match conversion {
        Some(conversion) => spec_returning(
            name,
            result_of(conversion).data_type,
            seq![a, b],
            spec_conversion(
                class_of(result_of(geometric_product_2).data_type),
                class_of(result_of(conversion).data_type),
                product,
            ),
        ),
        None => spec_returning(
            name,
            result_of(geometric_product_2).data_type,
            seq![a, b],
            product,
        ),
    }
}

/// `x.geometric_product(y)` for two local variables of the class of `a`.
pub open spec fn spec_local_product(
    a: ParameterView,
    geometric_product: AstNodeView,
    x: Seq<char>,
    y: Seq<char>,
) -> ExpressionView {
    spec_method_call(
        a.data_type,
        spec_variable(x, 1),
        result_of(geometric_product).name,
        seq![(a.data_type, spec_variable(y, 1))],
    )
}

/// A statement that assigns to a variable that exists.
pub open spec fn spec_reassign(name: Seq<char>, expression: ExpressionView) -> AstNodeView {
    AstNodeView::VariableAssignment { name, data_type: None, expression }
}

/// A statement that declares a variable.
pub open spec fn spec_declare(
    name: Seq<char>,
    data_type: DataTypeView,
    expression: ExpressionView,
) -> AstNodeView {
    AstNodeView::VariableAssignment { name, data_type: Some(data_type), expression }
}

/// The integer power by repeated squaring:
///
/// ```text
/// if exponent == 0 { return One }
/// x = if exponent < 0 { a.inverse() } else { a }
/// y = One
/// n = exponent.abs()
/// while 1 < n {
///     if (n & 1) == 1 { y = x * y }
///     x = x * x
///     n = n >> 1
/// }
/// return x * y
/// ```
pub open spec fn spec_power_of_integer(
    name: Seq<char>,
    geometric_product: AstNodeView,
    constant_one: AstNodeView,
    inverse: AstNodeView,
    a: ParameterView,
    b: ParameterView,
) -> AstNodeView {
    let one = spec_class_call(class_of(a.data_type), result_of(constant_one).name, Seq::empty());
    let exponent = spec_variable(b.name, 1);
    let n = spec_variable("n"@, 1);
    spec_operation(
        name,
        a.data_type,
        seq![a, b],
        seq![
            AstNodeView::IfThenBlock {
                condition: spec_equal(exponent, spec_integer(0)),
                body: seq![spec_return(one)],
            },
            spec_declare(
                "x"@,
                a.data_type,
                spec_select(
                    spec_less_than(exponent, spec_integer(0)),
                    spec_call(a, result_of(inverse).name),
                    spec_variable(a.name, 1),
                ),
            ),
            spec_declare("y"@, a.data_type, one),
            spec_declare(
                "n"@,
                DataTypeView::Integer,
                spec_method_call(DataTypeView::Integer, exponent, "Abs"@, Seq::empty()),
            ),
            AstNodeView::WhileLoopBlock {
                condition: spec_less_than(spec_integer(1), n),
                body: seq![
                    AstNodeView::IfThenBlock {
                        condition: spec_equal(spec_logic_and(n, spec_integer(1)), spec_integer(1)),
                        body: seq![
                            spec_reassign("y"@, spec_local_product(a, geometric_product, "x"@, "y"@)),
                        ],
                    },
                    spec_reassign("x"@, spec_local_product(a, geometric_product, "x"@, "x"@)),
                    spec_reassign("n"@, spec_shift_right(n, spec_integer(1))),
                ],
            },
            spec_return(spec_local_product(a, geometric_product, "x"@, "y"@)),
        ],
    )
}

/// `value.method()`.
fn call<'a>(value: &Parameter<'a>, method: &'static str) -> (expression: Expression<'a>)
    ensures
        expression.view() == spec_call(value.view(), method@),
{
    method_call(value.data_type, variable(value.name, 1), method, no_arguments())
}

/// `value.method(argument)`.
fn call_with<'a>(
    value: &Parameter<'a>,
    method: &'static str,
    argument_type: DataType<'a>,
    argument: Expression<'a>,
) -> (expression: Expression<'a>)
    ensures
        expression.view() == spec_call_with(
            value.view(),
            method@,
            argument_type.view(),
            argument.view(),
        ),
{
    method_call(
        value.data_type,
        variable(value.name, 1),
        method,
        one_argument(argument_type, argument),
    )
}

/// A multivector of a class with one group of one lane.
fn scalar_constructor<'a>(class: &'a MultiVectorClass, lane: Expression<'a>) -> (expression:
    Expression<'a>)
    ensures
        expression.view() == spec_scalar_constructor(*class, lane.view()),
{
    class_call(class, "Constructor", one_argument(DataType::SimdVector(1), lane))
}

/// `1 / value.method()[0]`.
fn reciprocal<'a>(value: &Parameter<'a>, method: &'static str) -> (expression: Expression<'a>)
    ensures
        expression.view() == spec_reciprocal(value.view(), method@),
{
    let one = vec![1isize];
    assert(one@ =~= seq![1isize]);
    divide(1, constant(1, one), access(call(value, method), 0))
}

/// An operation that returns one expression.
fn returning<'a>(
    name: &'static str,
    result_type: DataType<'a>,
    parameters: Vec<Parameter<'a>>,
    expression: Expression<'a>,
) -> (node: AstNode<'a>)
    ensures
        node.view() == spec_returning(
            name@,
            result_type.view(),
            parameters_view(parameters@),
            expression.view(),
        ),
{
    operation(name, result_type, parameters, one_statement(return_statement(expression)))
}

fn one_parameter<'a>(a: &Parameter<'a>) -> (parameters: Vec<Parameter<'a>>)
    ensures
        parameters_view(parameters@) == seq![a.view()],
{
    let parameters = vec![*a];
    assert(parameters_view(parameters@) =~= seq![a.view()]);
    parameters
}

fn two_parameters<'a>(a: &Parameter<'a>, b: &Parameter<'a>) -> (parameters: Vec<Parameter<'a>>)
    ensures
        parameters_view(parameters@) == seq![a.view(), b.view()],
{
    let parameters = vec![*a, *b];
    assert(parameters_view(parameters@) =~= seq![a.view(), b.view()]);
    parameters
}

/// `x.geometric_product(y)` for two local variables of the class of `a`.
fn local_product<'a>(
    a: &Parameter<'a>,
    method: &'static str,
    x: &'static str,
    y: &'static str,
) -> (expression: Expression<'a>)
    ensures
        expression.view() == spec_method_call(
            a.data_type.view(),
            spec_variable(x@, 1),
            method@,
            seq![(a.data_type.view(), spec_variable(y@, 1))],
        ),
{
    method_call(a.data_type, variable(x, 1), method, one_argument(a.data_type, variable(y, 1)))
}

impl MultiVectorClass {
    /// The squared magnitude: `a.scalar_product(a.reversal())`.
    pub fn derive_squared_magnitude<'a>(
        name: &'static str,
        scalar_product: &AstNode<'a>,
        involution: &AstNode<'a>,
        parameter_a: &Parameter<'a>,
    ) -> (node: AstNode<'a>)
        requires
            scalar_product.view() is TraitImplementation,
            involution.view() is TraitImplementation,
            result_of(involution.view()).data_type is MultiVector,
        ensures
            node.view() == spec_squared_magnitude(
                name@,
                scalar_product.view(),
                involution.view(),
                parameter_a.view(),
            ),
    {
        let scalar_product_result = result_of_trait(scalar_product);
        let involution_result = result_of_trait(involution);
        returning(
            name,
            scalar_product_result.data_type,
            one_parameter(parameter_a),
            call_with(
                parameter_a,
                scalar_product_result.name,
                DataType::MultiVector(involution_result.multi_vector_class()),
                call(parameter_a, involution_result.name),
            ),
        )
    }

    /// The product with a scalar: `a.geometric_product(B(other))`, where `B` is the
    /// class of `parameter_b`, which holds the scalar alone.
    pub fn derive_scale<'a>(
        name: &'static str,
        geometric_product: &AstNode<'a>,
        parameter_a: &Parameter<'a>,
        parameter_b: &Parameter<'a>,
    ) -> (node: AstNode<'a>)
        requires
            geometric_product.view() is TraitImplementation,
            parameter_b.data_type is MultiVector,
        ensures
            node.view() == spec_scale(
                name@,
                geometric_product.view(),
                parameter_a.view(),
                parameter_b.view(),
            ),
    {
        let geometric_product_result = result_of_trait(geometric_product);
        let other = Parameter { name: "other", data_type: DataType::SimdVector(1) };
        returning(
            name,
            geometric_product_result.data_type,
            two_parameters(parameter_a, &other),
            call_with(
                parameter_a,
                geometric_product_result.name,
                DataType::MultiVector(parameter_b.multi_vector_class()),
                scalar_constructor(
                    parameter_b.multi_vector_class(),
                    variable(parameter_b.name, 1),
                ),
            ),
        )
    }

    /// The magnitude: the square root of the squared magnitude.
    pub fn derive_magnitude<'a>(
        name: &'static str,
        squared_magnitude: &AstNode<'a>,
        parameter_a: &Parameter<'a>,
    ) -> (node: AstNode<'a>)
        requires
            squared_magnitude.view() is TraitImplementation,
            result_of(squared_magnitude.view()).data_type is MultiVector,
        ensures
            node.view() == spec_magnitude(name@, squared_magnitude.view(), parameter_a.view()),
    {
        let squared_magnitude_result = result_of_trait(squared_magnitude);
        returning(
            name,
            squared_magnitude_result.data_type,
            one_parameter(parameter_a),
            scalar_constructor(
                squared_magnitude_result.multi_vector_class(),
                square_root(access(call(parameter_a, squared_magnitude_result.name), 0)),
            ),
        )
    }

    /// The direction: `a.geometric_product(S(1 / a.magnitude()[0]))`.
    pub fn derive_signum<'a>(
        name: &'static str,
        geometric_product: &AstNode<'a>,
        magnitude: &AstNode<'a>,
        parameter_a: &Parameter<'a>,
    ) -> (node: AstNode<'a>)
        requires
            geometric_product.view() is TraitImplementation,
            magnitude.view() is TraitImplementation,
            result_of(magnitude.view()).data_type is MultiVector,
        ensures
            node.view() == spec_signum(
                name@,
                geometric_product.view(),
                magnitude.view(),
                parameter_a.view(),
            ),
    {
        let geometric_product_result = result_of_trait(geometric_product);
        let magnitude_result = result_of_trait(magnitude);
        returning(
            name,
            geometric_product_result.data_type,
            one_parameter(parameter_a),
            call_with(
                parameter_a,
                geometric_product_result.name,
                DataType::MultiVector(magnitude_result.multi_vector_class()),
                scalar_constructor(
                    magnitude_result.multi_vector_class(),
                    reciprocal(parameter_a, magnitude_result.name),
                ),
            ),
        )
    }

    /// The inverse: `a.reversal().geometric_product(S(1 / a.squared_magnitude()[0]))`.
    pub fn derive_inverse<'a>(
        name: &'static str,
        geometric_product: &AstNode<'a>,
        squared_magnitude: &AstNode<'a>,
        involution: &AstNode<'a>,
        parameter_a: &Parameter<'a>,
    ) -> (node: AstNode<'a>)
        requires
            geometric_product.view() is TraitImplementation,
            squared_magnitude.view() is TraitImplementation,
            involution.view() is TraitImplementation,
            result_of(squared_magnitude.view()).data_type is MultiVector,
        ensures
            node.view() == spec_inverse(
                name@,
                geometric_product.view(),
                squared_magnitude.view(),
                involution.view(),
                parameter_a.view(),
            ),
    {
        let geometric_product_result = result_of_trait(geometric_product);
        let squared_magnitude_result = result_of_trait(squared_magnitude);
        let involution_result = result_of_trait(involution);
        returning(
            name,
            geometric_product_result.data_type,
            one_parameter(parameter_a),
            method_call(
                involution_result.data_type,
                call(parameter_a, involution_result.name),
                geometric_product_result.name,
                one_argument(
                    DataType::MultiVector(squared_magnitude_result.multi_vector_class()),
                    scalar_constructor(
                        squared_magnitude_result.multi_vector_class(),
                        reciprocal(parameter_a, squared_magnitude_result.name),
                    ),
                ),
            ),
        )
    }

    /// The power with an integer exponent, by repeated squaring.
    pub fn derive_power_of_integer<'a>(
        name: &'static str,
        geometric_product: &AstNode<'a>,
        constant_one: &AstNode<'a>,
        inverse: &AstNode<'a>,
        parameter_a: &Parameter<'a>,
        parameter_b: &Parameter<'a>,
    ) -> (node: AstNode<'a>)
        requires
            geometric_product.view() is TraitImplementation,
            constant_one.view() is TraitImplementation,
            inverse.view() is TraitImplementation,
            parameter_a.data_type is MultiVector,
        ensures
            node.view() == spec_power_of_integer(
                name@,
                geometric_product.view(),
                constant_one.view(),
                inverse.view(),
                parameter_a.view(),
                parameter_b.view(),
            ),
    {
        let product_name = result_of_trait(geometric_product).name;
        let one_name = result_of_trait(constant_one).name;
        let inverse_name = result_of_trait(inverse).name;
        let a_class = parameter_a.multi_vector_class();
        let mut body = no_statements();
        push_statement(
            &mut body,
            if_then(
                equal(variable(parameter_b.name, 1), integer(0)),
                one_statement(return_statement(class_call(a_class, one_name, no_arguments()))),
            ),
        );
        push_statement(
            &mut body,
            assignment(
                "x",
                Some(parameter_a.data_type),
                select(
                    less_than(variable(parameter_b.name, 1), integer(0)),
                    call(parameter_a, inverse_name),
                    variable(parameter_a.name, 1),
                ),
            ),
        );
        push_statement(
            &mut body,
            assignment(
                "y",
                Some(parameter_a.data_type),
                class_call(a_class, one_name, no_arguments()),
            ),
        );
        push_statement(
            &mut body,
            assignment(
                "n",
                Some(DataType::Integer),
                method_call(
                    DataType::Integer,
                    variable(parameter_b.name, 1),
                    "Abs",
                    no_arguments(),
                ),
            ),
        );
        let mut loop_body = no_statements();
        push_statement(
            &mut loop_body,
            if_then(
                equal(logic_and(variable("n", 1), integer(1)), integer(1)),
                one_statement(
                    assignment("y", None, local_product(parameter_a, product_name, "x", "y")),
                ),
            ),
        );
        push_statement(
            &mut loop_body,
            assignment("x", None, local_product(parameter_a, product_name, "x", "x")),
        );
        push_statement(
            &mut loop_body,
            assignment("n", None, shift_right(variable("n", 1), integer(1))),
        );
        push_statement(
            &mut body,
            while_loop(less_than(integer(1), variable("n", 1)), loop_body),
        );
        push_statement(
            &mut body,
            return_statement(local_product(parameter_a, product_name, "x", "y")),
        );
        let node = operation(
            name,
            parameter_a.data_type,
            two_parameters(parameter_a, parameter_b),
            body,
        );
        proof {
            let expected = spec_power_of_integer(
                name@,
                geometric_product.view(),
                constant_one.view(),
                inverse.view(),
                parameter_a.view(),
                parameter_b.view(),
            );
            assert(statements_view(loop_body@) =~= expected->TraitImplementation_body[4]->WhileLoopBlock_body);
            assert(statements_view(body@) =~= expected->TraitImplementation_body);
        }
        node
    }

    /// The quotient: `a.geometric_product(b.inverse())`.
    pub fn derive_division<'a>(
        name: &'static str,
        geometric_product: &AstNode<'a>,
        inverse: &AstNode<'a>,
        parameter_a: &Parameter<'a>,
        parameter_b: &Parameter<'a>,
    ) -> (node: AstNode<'a>)
        requires
            geometric_product.view() is TraitImplementation,
            inverse.view() is TraitImplementation,
            result_of(inverse.view()).data_type is MultiVector,
        ensures
            node.view() == spec_division(
                name@,
                geometric_product.view(),
                inverse.view(),
                parameter_a.view(),
                parameter_b.view(),
            ),
    {
        let geometric_product_result = result_of_trait(geometric_product);
        let inverse_result = result_of_trait(inverse);
        returning(
            name,
            geometric_product_result.data_type,
            two_parameters(parameter_a, parameter_b),
            call_with(
                parameter_a,
                geometric_product_result.name,
                DataType::MultiVector(inverse_result.multi_vector_class()),
                call(parameter_b, inverse_result.name),
            ),
        )
    }

    /// The sandwich product `a * b * a.reversal()`: two geometric products, followed by
    /// a conversion into the class of `conversion` where one is given.
    pub fn derive_sandwich_product<'a>(
        name: &'static str,
        geometric_product: &AstNode<'a>,
        geometric_product_2: &AstNode<'a>,
        involution: &AstNode<'a>,
        conversion_node: Option<&AstNode<'a>>,
        parameter_a: &Parameter<'a>,
        parameter_b: &Parameter<'a>,
    ) -> (node: AstNode<'a>)
        requires
            geometric_product.view() is TraitImplementation,
            geometric_product_2.view() is TraitImplementation,
            involution.view() is TraitImplementation,
            result_of(involution.view()).data_type is MultiVector,
            parameter_b.data_type is MultiVector,
            conversion_node matches Some(conversion) ==> {
                &&& conversion.view() is TraitImplementation
                &&& result_of(conversion.view()).data_type is MultiVector
                &&& result_of(geometric_product_2.view()).data_type is MultiVector
            },
        ensures
            node.view() == spec_sandwich_product(
                name@,
                geometric_product.view(),
                geometric_product_2.view(),
                involution.view(),
                match conversion_node {
                    Some(conversion) => Some(conversion.view()),
                    None => None,
                },
                parameter_a.view(),
                parameter_b.view(),
            ),
    {
        let geometric_product_result = result_of_trait(geometric_product);
        let geometric_product_2_result = result_of_trait(geometric_product_2);
        let involution_result = result_of_trait(involution);
        let product = method_call(
            geometric_product_result.data_type,
            call_with(
                parameter_a,
                geometric_product_result.name,
                DataType::MultiVector(parameter_b.multi_vector_class()),
                variable(parameter_b.name, 1),
            ),
            geometric_product_2_result.name,
            one_argument(
                DataType::MultiVector(involution_result.multi_vector_class()),
                call(parameter_a, involution_result.name),
            ),
        );
        match conversion_node {
            Some(conversion_node) => {
                let conversion_result = result_of_trait(conversion_node);
                returning(
                    name,
                    conversion_result.data_type,
                    two_parameters(parameter_a, parameter_b),
                    conversion(
                        geometric_product_2_result.multi_vector_class(),
                        conversion_result.multi_vector_class(),
                        product,
                    ),
                )
            },
            None => returning(
                name,
                geometric_product_2_result.data_type,
                two_parameters(parameter_a, parameter_b),
                product,
            ),
        }
    }
}

} // verus!
