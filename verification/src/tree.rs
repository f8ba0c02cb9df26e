//! Small builders for the nodes that the compiler puts together, each with the value
//! of what it builds.

use vstd::prelude::*;
use crate::ast::{
    AstNode, AstNodeView, ContentView, DataType, DataTypeView, Expression, ExpressionContent,
    ExpressionView, Parameter, ParameterView, parameters_view,
};
use crate::class::MultiVectorClass;

verus! {

/// The values of a list of typed arguments.
pub open spec fn arguments_view(arguments: Seq<(DataType, Expression)>) -> Seq<
    (DataTypeView, ExpressionView),
> {
    Seq::new(arguments.len(), |i: int| (arguments[i].0.view(), arguments[i].1.view()))
}

/// The values of a list of statements.
pub open spec fn statements_view(statements: Seq<AstNode>) -> Seq<AstNodeView> {
    Seq::new(statements.len(), |i: int| statements[i].view())
}

/// A variable of the given number of lanes.
pub open spec fn spec_variable(name: Seq<char>, size: usize) -> ExpressionView {
    ExpressionView { size, content: ContentView::Variable(name) }
}

/// A constant vector.
pub open spec fn spec_constant(size: usize, values: Seq<isize>) -> ExpressionView {
    ExpressionView { size, content: ContentView::Constant(DataTypeView::SimdVector(size), values) }
}

/// A constant integer.
pub open spec fn spec_integer(value: isize) -> ExpressionView {
    ExpressionView { size: 1, content: ContentView::Constant(DataTypeView::Integer, seq![value]) }
}

/// Lanes gathered from the groups of `inner`.
pub open spec fn spec_gather(
    size: usize,
    inner: ExpressionView,
    pairs: Seq<(usize, usize)>,
) -> ExpressionView {
    ExpressionView { size, content: ContentView::Gather(Box::new(inner), pairs) }
}

/// The sum of two expressions.
pub open spec fn spec_add(size: usize, a: ExpressionView, b: ExpressionView) -> ExpressionView {
    ExpressionView { size, content: ContentView::Add(Box::new(a), Box::new(b)) }
}

/// The difference of two expressions.
pub open spec fn spec_subtract(size: usize, a: ExpressionView, b: ExpressionView) -> ExpressionView {
    ExpressionView { size, content: ContentView::Subtract(Box::new(a), Box::new(b)) }
}

/// The product of two expressions.
pub open spec fn spec_multiply(size: usize, a: ExpressionView, b: ExpressionView) -> ExpressionView {
    ExpressionView { size, content: ContentView::Multiply(Box::new(a), Box::new(b)) }
}

/// The quotient of two expressions.
pub open spec fn spec_divide(size: usize, a: ExpressionView, b: ExpressionView) -> ExpressionView {
    ExpressionView { size, content: ContentView::Divide(Box::new(a), Box::new(b)) }
}

/// Group `group` of a multivector.
pub open spec fn spec_access(inner: ExpressionView, group: usize) -> ExpressionView {
    ExpressionView { size: 1, content: ContentView::Access(Box::new(inner), group) }
}

/// A call of a method of a class.
pub open spec fn spec_class_call(
    class: MultiVectorClass,
    method: Seq<char>,
    arguments: Seq<(DataTypeView, ExpressionView)>,
) -> ExpressionView {
    ExpressionView { size: 1, content: ContentView::InvokeClassMethod(class, method, arguments) }
}

/// A call of a method on a value.
pub open spec fn spec_method_call(
    receiver_type: DataTypeView,
    receiver: ExpressionView,
    method: Seq<char>,
    arguments: Seq<(DataTypeView, ExpressionView)>,
) -> ExpressionView {
    ExpressionView {
        size: 1,
        content: ContentView::InvokeInstanceMethod(
            receiver_type,
            Box::new(receiver),
            method,
            arguments,
        ),
    }
}

/// A multivector of a class, built from one expression for each group.
pub open spec fn spec_constructor(
    class: MultiVectorClass,
    groups: Seq<ExpressionView>,
) -> ExpressionView {
    spec_class_call(
        class,
        "Constructor"@,
        groups.map_values(
            |group: ExpressionView| (DataTypeView::SimdVector(group.size), group),
        ),
    )
}

/// The square root of an expression.
pub open spec fn spec_square_root(inner: ExpressionView) -> ExpressionView {
    ExpressionView { size: 1, content: ContentView::SquareRoot(Box::new(inner)) }
}

/// One of two expressions, by a condition.
pub open spec fn spec_select(
    condition: ExpressionView,
    then: ExpressionView,
    otherwise: ExpressionView,
) -> ExpressionView {
    ExpressionView {
        size: 1,
        content: ContentView::Select(Box::new(condition), Box::new(then), Box::new(otherwise)),
    }
}

/// Whether the first expression is less than the second.
pub open spec fn spec_less_than(a: ExpressionView, b: ExpressionView) -> ExpressionView {
    ExpressionView { size: 1, content: ContentView::LessThan(Box::new(a), Box::new(b)) }
}

/// Whether two expressions are equal.
pub open spec fn spec_equal(a: ExpressionView, b: ExpressionView) -> ExpressionView {
    ExpressionView { size: 1, content: ContentView::Equal(Box::new(a), Box::new(b)) }
}

/// The bits that two expressions share.
pub open spec fn spec_logic_and(a: ExpressionView, b: ExpressionView) -> ExpressionView {
    ExpressionView { size: 1, content: ContentView::LogicAnd(Box::new(a), Box::new(b)) }
}

/// The first expression shifted right by the second.
pub open spec fn spec_shift_right(a: ExpressionView, b: ExpressionView) -> ExpressionView {
    ExpressionView { size: 1, content: ContentView::BitShiftRight(Box::new(a), Box::new(b)) }
}

/// A multivector converted from one class into another.
pub open spec fn spec_conversion(
    source: MultiVectorClass,
    destination: MultiVectorClass,
    inner: ExpressionView,
) -> ExpressionView {
    ExpressionView {
        size: 1,
        content: ContentView::Conversion(source, destination, Box::new(inner)),
    }
}

/// A statement that returns the expression.
pub open spec fn spec_return(expression: ExpressionView) -> AstNodeView {
    AstNodeView::ReturnStatement { expression }
}

/// An operation: its name and result type, its parameters and its body.
pub open spec fn spec_operation(
    name: Seq<char>,
    result_type: DataTypeView,
    parameters: Seq<ParameterView>,
    body: Seq<AstNodeView>,
) -> AstNodeView {
    AstNodeView::TraitImplementation {
        result: ParameterView { name, data_type: result_type },
        parameters,
        body,
    }
}

/// A variable.
pub fn variable<'a>(name: &'static str, size: usize) -> (expression: Expression<'a>)
    ensures
        expression.view() == spec_variable(name@, size),
{
    Expression { size, content: ExpressionContent::Variable(name) }
}

/// A constant vector.
pub fn constant<'a>(size: usize, values: Vec<isize>) -> (expression: Expression<'a>)
    ensures
        expression.view() == spec_constant(size, values@),
{
    Expression { size, content: ExpressionContent::Constant(DataType::SimdVector(size), values) }
}

/// A constant integer.
pub fn integer<'a>(value: isize) -> (expression: Expression<'a>)
    ensures
        expression.view() == spec_integer(value),
{
    let values = vec![value];
    assert(values@ =~= seq![value]);
    Expression { size: 1, content: ExpressionContent::Constant(DataType::Integer, values) }
}

/// Lanes gathered from the groups of `inner`.
pub fn gather<'a>(size: usize, inner: Expression<'a>, pairs: Vec<(usize, usize)>) -> (expression:
    Expression<'a>)
    ensures
        expression.view() == spec_gather(size, inner.view(), pairs@),
{
    Expression { size, content: ExpressionContent::Gather(Box::new(inner), pairs) }
}

/// The sum of two expressions.
pub fn sum<'a>(size: usize, a: Expression<'a>, b: Expression<'a>) -> (expression: Expression<'a>)
    ensures
        expression.view() == spec_add(size, a.view(), b.view()),
{
    Expression { size, content: ExpressionContent::Add(Box::new(a), Box::new(b)) }
}

/// The difference of two expressions.
pub fn subtract<'a>(size: usize, a: Expression<'a>, b: Expression<'a>) -> (expression: Expression<
    'a,
>)
    ensures
        expression.view() == spec_subtract(size, a.view(), b.view()),
{
    Expression { size, content: ExpressionContent::Subtract(Box::new(a), Box::new(b)) }
}

/// The product of two expressions.
pub fn multiply<'a>(size: usize, a: Expression<'a>, b: Expression<'a>) -> (expression: Expression<
    'a,
>)
    ensures
        expression.view() == spec_multiply(size, a.view(), b.view()),
{
    Expression { size, content: ExpressionContent::Multiply(Box::new(a), Box::new(b)) }
}

/// The quotient of two expressions.
pub fn divide<'a>(size: usize, a: Expression<'a>, b: Expression<'a>) -> (expression: Expression<
    'a,
>)
    ensures
        expression.view() == spec_divide(size, a.view(), b.view()),
{
    Expression { size, content: ExpressionContent::Divide(Box::new(a), Box::new(b)) }
}

/// Group `group` of a multivector.
pub fn access<'a>(inner: Expression<'a>, group: usize) -> (expression: Expression<'a>)
    ensures
        expression.view() == spec_access(inner.view(), group),
{
    Expression { size: 1, content: ExpressionContent::Access(Box::new(inner), group) }
}

/// A call of a method of a class.
pub fn class_call<'a>(
    class: &'a MultiVectorClass,
    method: &'static str,
    arguments: Vec<(DataType<'a>, Expression<'a>)>,
) -> (expression: Expression<'a>)
    ensures
        expression.view() == spec_class_call(*class, method@, arguments_view(arguments@)),
{
    let expression = Expression {
        size: 1,
        content: ExpressionContent::InvokeClassMethod(class, method, arguments),
    };
    proof {
        match expression.view().content {
            ContentView::InvokeClassMethod(_, _, values) => {
                assert(values =~= arguments_view(arguments@));
            },
            _ => {},
        }
    }
    expression
}

/// A call of a method on a value.
pub fn method_call<'a>(
    receiver_type: DataType<'a>,
    receiver: Expression<'a>,
    method: &'static str,
    arguments: Vec<(DataType<'a>, Expression<'a>)>,
) -> (expression: Expression<'a>)
    ensures
        expression.view() == spec_method_call(
            receiver_type.view(),
            receiver.view(),
            method@,
            arguments_view(arguments@),
        ),
{
    let ghost receiver_view = receiver.view();
    let expression = Expression {
        size: 1,
        content: ExpressionContent::InvokeInstanceMethod(
            receiver_type,
            Box::new(receiver),
            method,
            arguments,
        ),
    };
    proof {
        match expression.view().content {
            ContentView::InvokeInstanceMethod(_, _, _, values) => {
                assert(values =~= arguments_view(arguments@));
            },
            _ => {},
        }
    }
    expression
}

/// No arguments.
pub fn no_arguments<'a>() -> (arguments: Vec<(DataType<'a>, Expression<'a>)>)
    ensures
        arguments_view(arguments@) == Seq::<(DataTypeView, ExpressionView)>::empty(),
{
    let arguments = Vec::new();
    assert(arguments_view(arguments@) =~= Seq::<(DataTypeView, ExpressionView)>::empty());
    arguments
}

/// One argument.
pub fn one_argument<'a>(data_type: DataType<'a>, expression: Expression<'a>) -> (arguments: Vec<
    (DataType<'a>, Expression<'a>),
>)
    ensures
        arguments_view(arguments@) == seq![(data_type.view(), expression.view())],
{
    let mut arguments = Vec::new();
    arguments.push((data_type, expression));
    assert(arguments_view(arguments@) =~= seq![(data_type.view(), expression.view())]);
    arguments
}

/// The square root of an expression.
pub fn square_root<'a>(inner: Expression<'a>) -> (expression: Expression<'a>)
    ensures
        expression.view() == spec_square_root(inner.view()),
{
    Expression { size: 1, content: ExpressionContent::SquareRoot(Box::new(inner)) }
}

/// One of two expressions, by a condition.
pub fn select<'a>(condition: Expression<'a>, then: Expression<'a>, otherwise: Expression<'a>) -> (expression:
    Expression<'a>)
    ensures
        expression.view() == spec_select(condition.view(), then.view(), otherwise.view()),
{
    Expression {
        size: 1,
        content: ExpressionContent::Select(
            Box::new(condition),
            Box::new(then),
            Box::new(otherwise),
        ),
    }
}

/// Whether the first expression is less than the second.
pub fn less_than<'a>(a: Expression<'a>, b: Expression<'a>) -> (expression: Expression<'a>)
    ensures
        expression.view() == spec_less_than(a.view(), b.view()),
{
    Expression { size: 1, content: ExpressionContent::LessThan(Box::new(a), Box::new(b)) }
}

/// Whether two expressions are equal.
pub fn equal<'a>(a: Expression<'a>, b: Expression<'a>) -> (expression: Expression<'a>)
    ensures
        expression.view() == spec_equal(a.view(), b.view()),
{
    Expression { size: 1, content: ExpressionContent::Equal(Box::new(a), Box::new(b)) }
}

/// The bits that two expressions share.
pub fn logic_and<'a>(a: Expression<'a>, b: Expression<'a>) -> (expression: Expression<'a>)
    ensures
        expression.view() == spec_logic_and(a.view(), b.view()),
{
    Expression { size: 1, content: ExpressionContent::LogicAnd(Box::new(a), Box::new(b)) }
}

/// The first expression shifted right by the second.
pub fn shift_right<'a>(a: Expression<'a>, b: Expression<'a>) -> (expression: Expression<'a>)
    ensures
        expression.view() == spec_shift_right(a.view(), b.view()),
{
    Expression { size: 1, content: ExpressionContent::BitShiftRight(Box::new(a), Box::new(b)) }
}

/// A multivector converted from one class into another.
pub fn conversion<'a>(
    source: &'a MultiVectorClass,
    destination: &'a MultiVectorClass,
    inner: Expression<'a>,
) -> (expression: Expression<'a>)
    ensures
        expression.view() == spec_conversion(*source, *destination, inner.view()),
{
    Expression {
        size: 1,
        content: ExpressionContent::Conversion(source, destination, Box::new(inner)),
    }
}

/// A statement that assigns to a variable, declaring it where a type is given.
pub fn assignment<'a>(
    name: &'static str,
    data_type: Option<DataType<'a>>,
    expression: Expression<'a>,
) -> (statement: AstNode<'a>)
    ensures
        statement.view() == (AstNodeView::VariableAssignment {
            name: name@,
            data_type: match data_type {
                Some(data_type) => Some(data_type.view()),
                None => None,
            },
            expression: expression.view(),
        }),
{
    AstNode::VariableAssignment { name, data_type, expression: Box::new(expression) }
}

/// A block that runs if the condition holds.
pub fn if_then<'a>(condition: Expression<'a>, body: Vec<AstNode<'a>>) -> (statement: AstNode<'a>)
    ensures
        statement.view() == (AstNodeView::IfThenBlock {
            condition: condition.view(),
            body: statements_view(body@),
        }),
{
    let statement = AstNode::IfThenBlock { condition: Box::new(condition), body };
    proof {
        match statement.view() {
            AstNodeView::IfThenBlock { body: values, .. } => {
                assert(values =~= statements_view(body@));
            },
            _ => {},
        }
    }
    statement
}

/// A block that runs while the condition holds.
pub fn while_loop<'a>(condition: Expression<'a>, body: Vec<AstNode<'a>>) -> (statement: AstNode<
    'a,
>)
    ensures
        statement.view() == (AstNodeView::WhileLoopBlock {
            condition: condition.view(),
            body: statements_view(body@),
        }),
{
    let statement = AstNode::WhileLoopBlock { condition: Box::new(condition), body };
    proof {
        match statement.view() {
            AstNodeView::WhileLoopBlock { body: values, .. } => {
                assert(values =~= statements_view(body@));
            },
            _ => {},
        }
    }
    statement
}

/// Appends a statement to a body.
pub fn push_statement<'a>(body: &mut Vec<AstNode<'a>>, statement: AstNode<'a>)
    ensures
        statements_view(final(body)@) == statements_view(old(body)@).push(statement.view()),
{
    body.push(statement);
    assert(statements_view(body@) =~= statements_view(old(body)@).push(statement.view()));
}

/// An empty body.
pub fn no_statements<'a>() -> (body: Vec<AstNode<'a>>)
    ensures
        statements_view(body@) == Seq::<AstNodeView>::empty(),
{
    let body = Vec::new();
    assert(statements_view(body@) =~= Seq::<AstNodeView>::empty());
    body
}

/// The result of an operation: its name and type.
pub fn result_of_trait<'a>(node: &AstNode<'a>) -> (result: Parameter<'a>)
    requires
        node.view() is TraitImplementation,
    ensures
        result.view() == node.view()->result,
        result.data_type.view() is MultiVector ==> result.data_type is MultiVector,
{
    match node {
        AstNode::TraitImplementation { result, .. } => *result,
        _ => vstd::pervasive::unreached(),
    }
}

/// A statement that returns the expression.
pub fn return_statement<'a>(expression: Expression<'a>) -> (statement: AstNode<'a>)
    ensures
        statement.view() == spec_return(expression.view()),
{
    AstNode::ReturnStatement { expression: Box::new(expression) }
}

/// An operation: its name and result type, its parameters and its body.
pub fn operation<'a>(
    name: &'static str,
    result_type: DataType<'a>,
    parameters: Vec<Parameter<'a>>,
    body: Vec<AstNode<'a>>,
) -> (node: AstNode<'a>)
    ensures
        node.view() == spec_operation(
            name@,
            result_type.view(),
            parameters_view(parameters@),
            statements_view(body@),
        ),
{
    let node = AstNode::TraitImplementation {
        result: Parameter { name, data_type: result_type },
        parameters,
        body,
    };
    proof {
        match node.view() {
            AstNodeView::TraitImplementation { body: values, .. } => {
                assert(values =~= statements_view(body@));
            },
            _ => {},
        }
    }
    node
}

/// A body of one statement.
pub fn one_statement<'a>(statement: AstNode<'a>) -> (body: Vec<AstNode<'a>>)
    ensures
        statements_view(body@) == seq![statement.view()],
{
    let mut body = Vec::new();
    body.push(statement);
    assert(statements_view(body@) =~= seq![statement.view()]);
    body
}

/// Whether two texts are the same.
pub fn same_text(a: &str, b: &str) -> (same: bool)
    ensures
        same == (a@ == b@),
{
    let left = a.to_owned();
    let right = b.to_owned();
    left == right
}

} // verus!
