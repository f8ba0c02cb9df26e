//! The expression tree that the compiler builds and the emitters print.

use vstd::prelude::*;
use crate::class::MultiVectorClass;

verus! {

/// The type of a value in the generated code.
#[derive(PartialEq, Eq, Clone, Copy, Debug)]
pub enum DataType<'a> {
    Integer,
    SimdVector(usize),
    MultiVector(&'a MultiVectorClass),
}

/// What an expression node does. `Empty` stands for an absent expression.
#[derive(PartialEq, Eq, Debug)]
pub enum ExpressionContent<'a> {
    Empty,
    Variable(&'static str),
    InvokeClassMethod(&'a MultiVectorClass, &'static str, Vec<(DataType<'a>, Expression<'a>)>),
    InvokeInstanceMethod(
        DataType<'a>,
        Box<Expression<'a>>,
        &'static str,
        Vec<(DataType<'a>, Expression<'a>)>,
    ),
    Conversion(&'a MultiVectorClass, &'a MultiVectorClass, Box<Expression<'a>>),
    Select(Box<Expression<'a>>, Box<Expression<'a>>, Box<Expression<'a>>),
    Access(Box<Expression<'a>>, usize),
    Swizzle(Box<Expression<'a>>, Vec<usize>),
    Gather(Box<Expression<'a>>, Vec<(usize, usize)>),
    Constant(DataType<'a>, Vec<isize>),
    SquareRoot(Box<Expression<'a>>),
    Add(Box<Expression<'a>>, Box<Expression<'a>>),
    Subtract(Box<Expression<'a>>, Box<Expression<'a>>),
    Multiply(Box<Expression<'a>>, Box<Expression<'a>>),
    Divide(Box<Expression<'a>>, Box<Expression<'a>>),
    LessThan(Box<Expression<'a>>, Box<Expression<'a>>),
    Equal(Box<Expression<'a>>, Box<Expression<'a>>),
    LogicAnd(Box<Expression<'a>>, Box<Expression<'a>>),
    BitShiftRight(Box<Expression<'a>>, Box<Expression<'a>>),
}

/// An expression with its number of lanes.
#[derive(PartialEq, Eq, Debug)]
pub struct Expression<'a> {
    pub size: usize,
    pub content: ExpressionContent<'a>,
}

/// A named, typed parameter or result.
#[derive(PartialEq, Eq, Clone, Copy, Debug)]
pub struct Parameter<'a> {
    pub name: &'static str,
    pub data_type: DataType<'a>,
}

/// A statement or definition of the generated code. `Empty` stands for an operation
/// that is not emitted.
#[derive(PartialEq, Eq, Debug)]
pub enum AstNode<'a> {
    Empty,
    Preamble,
    ClassDefinition { class: &'a MultiVectorClass },
    ReturnStatement { expression: Box<Expression<'a>> },
    VariableAssignment {
        name: &'static str,
        data_type: Option<DataType<'a>>,
        expression: Box<Expression<'a>>,
    },
    IfThenBlock { condition: Box<Expression<'a>>, body: Vec<AstNode<'a>> },
    WhileLoopBlock { condition: Box<Expression<'a>>, body: Vec<AstNode<'a>> },
    TraitImplementation {
        result: Parameter<'a>,
        parameters: Vec<Parameter<'a>>,
        body: Vec<AstNode<'a>>,
    },
}

/// The mathematical value of a [`DataType`].
pub ghost enum DataTypeView {
    Integer,
    SimdVector(usize),
    MultiVector(MultiVectorClass),
}

/// The mathematical value of an [`ExpressionContent`].
pub ghost enum ContentView {
    Empty,
    Variable(Seq<char>),
    InvokeClassMethod(MultiVectorClass, Seq<char>, Seq<(DataTypeView, ExpressionView)>),
    InvokeInstanceMethod(
        DataTypeView,
        Box<ExpressionView>,
        Seq<char>,
        Seq<(DataTypeView, ExpressionView)>,
    ),
    Conversion(MultiVectorClass, MultiVectorClass, Box<ExpressionView>),
    Select(Box<ExpressionView>, Box<ExpressionView>, Box<ExpressionView>),
    Access(Box<ExpressionView>, usize),
    Swizzle(Box<ExpressionView>, Seq<usize>),
    Gather(Box<ExpressionView>, Seq<(usize, usize)>),
    Constant(DataTypeView, Seq<isize>),
    SquareRoot(Box<ExpressionView>),
    Add(Box<ExpressionView>, Box<ExpressionView>),
    Subtract(Box<ExpressionView>, Box<ExpressionView>),
    Multiply(Box<ExpressionView>, Box<ExpressionView>),
    Divide(Box<ExpressionView>, Box<ExpressionView>),
    LessThan(Box<ExpressionView>, Box<ExpressionView>),
    Equal(Box<ExpressionView>, Box<ExpressionView>),
    LogicAnd(Box<ExpressionView>, Box<ExpressionView>),
    BitShiftRight(Box<ExpressionView>, Box<ExpressionView>),
}

/// The mathematical value of an [`Expression`].
pub ghost struct ExpressionView {
    pub size: usize,
    pub content: ContentView,
}

/// The mathematical value of a [`Parameter`].
pub ghost struct ParameterView {
    pub name: Seq<char>,
    pub data_type: DataTypeView,
}

/// The mathematical value of an [`AstNode`].
pub ghost enum AstNodeView {
    Empty,
    Preamble,
    ClassDefinition { class: MultiVectorClass },
    ReturnStatement { expression: ExpressionView },
    VariableAssignment { name: Seq<char>, data_type: Option<DataTypeView>, expression: ExpressionView },
    IfThenBlock { condition: ExpressionView, body: Seq<AstNodeView> },
    WhileLoopBlock { condition: ExpressionView, body: Seq<AstNodeView> },
    TraitImplementation { result: ParameterView, parameters: Seq<ParameterView>, body: Seq<AstNodeView> },
}

/// An absent expression with the given number of lanes.
pub open spec fn empty_expression(size: usize) -> ExpressionView {
    ExpressionView { size, content: ContentView::Empty }
}

impl<'a> DataType<'a> {
    /// The mathematical value of the type.
    pub open spec fn view(&self) -> DataTypeView {
        match self {
            DataType::Integer => DataTypeView::Integer,
            DataType::SimdVector(size) => DataTypeView::SimdVector(*size),
            DataType::MultiVector(class) => DataTypeView::MultiVector(**class),
        }
    }
}

impl<'a> Expression<'a> {
    /// The mathematical value of the expression.
    pub open spec fn view(&self) -> ExpressionView
        decreases self,
    {
        ExpressionView { size: self.size, content: self.content.view() }
    }
}

impl<'a> ExpressionContent<'a> {
    /// The mathematical value of the content.
    pub open spec fn view(&self) -> ContentView
        decreases self,
    {
        match self {
            ExpressionContent::Empty => ContentView::Empty,
            ExpressionContent::Variable(name) => ContentView::Variable(name@),
            ExpressionContent::InvokeClassMethod(class, method, arguments) => {
                ContentView::InvokeClassMethod(
                    **class,
                    method@,
                    Seq::new(
                        arguments@.len(),
                        |i: int|
                            if 0 <= i < arguments@.len() {
                                (arguments@[i].0.view(), arguments@[i].1.view())
                            } else {
                                (DataTypeView::Integer, empty_expression(0))
                            },
                    ),
                )
            },
            ExpressionContent::InvokeInstanceMethod(data_type, receiver, method, arguments) => {
                ContentView::InvokeInstanceMethod(
                    data_type.view(),
                    Box::new(receiver.view()),
                    method@,
                    Seq::new(
                        arguments@.len(),
                        |i: int|
                            if 0 <= i < arguments@.len() {
                                (arguments@[i].0.view(), arguments@[i].1.view())
                            } else {
                                (DataTypeView::Integer, empty_expression(0))
                            },
                    ),
                )
            },
            ExpressionContent::Conversion(source, destination, inner) => ContentView::Conversion(
                **source,
                **destination,
                Box::new(inner.view()),
            ),
            ExpressionContent::Select(condition, then, otherwise) => ContentView::Select(
                Box::new(condition.view()),
                Box::new(then.view()),
                Box::new(otherwise.view()),
            ),
            ExpressionContent::Access(inner, group) => ContentView::Access(
                Box::new(inner.view()),
                *group,
            ),
            ExpressionContent::Swizzle(inner, lanes) => ContentView::Swizzle(
                Box::new(inner.view()),
                lanes@,
            ),
            ExpressionContent::Gather(inner, pairs) => ContentView::Gather(
                Box::new(inner.view()),
                pairs@,
            ),
            ExpressionContent::Constant(data_type, values) => ContentView::Constant(
                data_type.view(),
                values@,
            ),
            ExpressionContent::SquareRoot(inner) => ContentView::SquareRoot(Box::new(inner.view())),
            ExpressionContent::Add(a, b) => ContentView::Add(Box::new(a.view()), Box::new(b.view())),
            ExpressionContent::Subtract(a, b) => ContentView::Subtract(
                Box::new(a.view()),
                Box::new(b.view()),
            ),
            ExpressionContent::Multiply(a, b) => ContentView::Multiply(
                Box::new(a.view()),
                Box::new(b.view()),
            ),
            ExpressionContent::Divide(a, b) => ContentView::Divide(
                Box::new(a.view()),
                Box::new(b.view()),
            ),
            ExpressionContent::LessThan(a, b) => ContentView::LessThan(
                Box::new(a.view()),
                Box::new(b.view()),
            ),
            ExpressionContent::Equal(a, b) => ContentView::Equal(
                Box::new(a.view()),
                Box::new(b.view()),
            ),
            ExpressionContent::LogicAnd(a, b) => ContentView::LogicAnd(
                Box::new(a.view()),
                Box::new(b.view()),
            ),
            ExpressionContent::BitShiftRight(a, b) => ContentView::BitShiftRight(
                Box::new(a.view()),
                Box::new(b.view()),
            ),
        }
    }

    /// Whether the expression is absent.
    pub fn is_empty(&self) -> (empty: bool)
        ensures
            empty == (self.view() is Empty),
    {
        match self {
            ExpressionContent::Empty => true,
            _ => false,
        }
    }
}

impl<'a> Parameter<'a> {
    /// The mathematical value of the parameter.
    pub open spec fn view(&self) -> ParameterView {
        ParameterView { name: self.name@, data_type: self.data_type.view() }
    }

    /// The class of a parameter that is a multivector.
    pub fn multi_vector_class(&self) -> (class: &'a MultiVectorClass)
        requires
            self.data_type is MultiVector,
        ensures
            self.data_type.view() == DataTypeView::MultiVector(*class),
    {
        match self.data_type {
            DataType::MultiVector(class) => class,
            _ => vstd::pervasive::unreached(),
        }
    }
}

/// The values of a list of parameters.
pub open spec fn parameters_view(parameters: Seq<Parameter>) -> Seq<ParameterView> {
    parameters.map_values(|parameter: Parameter| parameter.view())
}

impl<'a> AstNode<'a> {
    /// The mathematical value of the node.
    pub open spec fn view(&self) -> AstNodeView
        decreases self,
    {
        match self {
            AstNode::Empty => AstNodeView::Empty,
            AstNode::Preamble => AstNodeView::Preamble,
            AstNode::ClassDefinition { class } => AstNodeView::ClassDefinition { class: **class },
            AstNode::ReturnStatement { expression } => AstNodeView::ReturnStatement {
                expression: expression.view(),
            },
            AstNode::VariableAssignment { name, data_type, expression } => {
                AstNodeView::VariableAssignment {
                    name: name@,
                    data_type: match data_type {
                        Some(data_type) => Some(data_type.view()),
                        None => None,
                    },
                    expression: expression.view(),
                }
            },
            AstNode::IfThenBlock { condition, body } => AstNodeView::IfThenBlock {
                condition: condition.view(),
                body: Seq::new(
                    body@.len(),
                    |i: int|
                        if 0 <= i < body@.len() {
                            body@[i].view()
                        } else {
                            AstNodeView::Empty
                        },
                ),
            },
            AstNode::WhileLoopBlock { condition, body } => AstNodeView::WhileLoopBlock {
                condition: condition.view(),
                body: Seq::new(
                    body@.len(),
                    |i: int|
                        if 0 <= i < body@.len() {
                            body@[i].view()
                        } else {
                            AstNodeView::Empty
                        },
                ),
            },
            AstNode::TraitImplementation { result, parameters, body } => {
                AstNodeView::TraitImplementation {
                    result: result.view(),
                    parameters: parameters_view(parameters@),
                    body: Seq::new(
                        body@.len(),
                        |i: int|
                            if 0 <= i < body@.len() {
                                body@[i].view()
                            } else {
                                AstNodeView::Empty
                            },
                    ),
                }
            },
        }
    }

    /// Whether the node stands for an operation that is not emitted.
    pub fn is_empty(&self) -> (empty: bool)
        ensures
            empty == (self.view() is Empty),
    {
        match self {
            AstNode::Empty => true,
            _ => false,
        }
    }
}

fn duplicate_arguments<'a>(arguments: &Vec<(DataType<'a>, Expression<'a>)>) -> (copy: Vec<
    (DataType<'a>, Expression<'a>),
>)
    ensures
        copy@.len() == arguments@.len(),
        forall|k: int|
            0 <= k < arguments@.len() ==> (#[trigger] copy@[k]).0.view() == arguments@[k].0.view()
                && copy@[k].1.view() == arguments@[k].1.view(),
    decreases arguments,
{
    let mut copy: Vec<(DataType<'a>, Expression<'a>)> = Vec::new();
    let mut i: usize = 0;
    while i < arguments.len()
        invariant
            i <= arguments.len(),
            copy@.len() == i,
            forall|k: int|
                0 <= k < i ==> (#[trigger] copy@[k]).0.view() == arguments@[k].0.view()
                    && copy@[k].1.view() == arguments@[k].1.view(),
        decreases arguments.len() - i,
    {
        copy.push((arguments[i].0, arguments[i].1.duplicate()));
        i += 1;
    }
    copy
}

fn duplicate_nodes<'a>(nodes: &Vec<AstNode<'a>>) -> (copy: Vec<AstNode<'a>>)
    ensures
        copy@.len() == nodes@.len(),
        forall|k: int| 0 <= k < nodes@.len() ==> (#[trigger] copy@[k]).view() == nodes@[k].view(),
    decreases nodes,
{
    let mut copy: Vec<AstNode<'a>> = Vec::new();
    let mut i: usize = 0;
    while i < nodes.len()
        invariant
            i <= nodes.len(),
            copy@.len() == i,
            forall|k: int| 0 <= k < i ==> (#[trigger] copy@[k]).view() == nodes@[k].view(),
        decreases nodes.len() - i,
    {
        copy.push(nodes[i].duplicate());
        i += 1;
    }
    copy
}

fn duplicate_values<T: Copy>(values: &Vec<T>) -> (copy: Vec<T>)
    ensures
        copy@ == values@,
{
    let mut copy: Vec<T> = Vec::new();
    let mut i: usize = 0;
    while i < values.len()
        invariant
            i <= values.len(),
            copy@.len() == i,
            forall|k: int| 0 <= k < i ==> copy@[k] == values@[k],
        decreases values.len() - i,
    {
        copy.push(values[i]);
        i += 1;
    }
    assert(copy@ =~= values@);
    copy
}

impl<'a> Expression<'a> {
    /// A copy of the expression.
    pub fn duplicate(&self) -> (copy: Self)
        ensures
            copy.view() == self.view(),
        decreases self,
    {
        Expression { size: self.size, content: self.content.duplicate() }
    }
}

impl<'a> ExpressionContent<'a> {
    /// A copy of the content.
    pub fn duplicate(&self) -> (copy: Self)
        ensures
            copy.view() == self.view(),
        decreases self,
    {
        match self {
            ExpressionContent::Empty => ExpressionContent::Empty,
            ExpressionContent::Variable(name) => ExpressionContent::Variable(*name),
            ExpressionContent::InvokeClassMethod(class, method, arguments) => {
                let copy = duplicate_arguments(arguments);
                let result = ExpressionContent::InvokeClassMethod(*class, *method, copy);
                proof {
                    assert(result.view()->InvokeClassMethod_2 =~= self.view()->InvokeClassMethod_2);
                }
                result
            },
            ExpressionContent::InvokeInstanceMethod(data_type, receiver, method, arguments) => {
                let copy = duplicate_arguments(arguments);
                let result = ExpressionContent::InvokeInstanceMethod(
                    *data_type,
                    Box::new(receiver.duplicate()),
                    *method,
                    copy,
                );
                proof {
                    assert(result.view()->InvokeInstanceMethod_3
                        =~= self.view()->InvokeInstanceMethod_3);
                }
                result
            },
            ExpressionContent::Conversion(source, destination, inner) => {
                ExpressionContent::Conversion(*source, *destination, Box::new(inner.duplicate()))
            },
            ExpressionContent::Select(condition, then, otherwise) => ExpressionContent::Select(
                Box::new(condition.duplicate()),
                Box::new(then.duplicate()),
                Box::new(otherwise.duplicate()),
            ),
            ExpressionContent::Access(inner, group) => ExpressionContent::Access(
                Box::new(inner.duplicate()),
                *group,
            ),
            ExpressionContent::Swizzle(inner, lanes) => ExpressionContent::Swizzle(
                Box::new(inner.duplicate()),
                duplicate_values(lanes),
            ),
            ExpressionContent::Gather(inner, pairs) => ExpressionContent::Gather(
                Box::new(inner.duplicate()),
                duplicate_values(pairs),
            ),
            ExpressionContent::Constant(data_type, values) => ExpressionContent::Constant(
                *data_type,
                duplicate_values(values),
            ),
            ExpressionContent::SquareRoot(inner) => ExpressionContent::SquareRoot(
                Box::new(inner.duplicate()),
            ),
            ExpressionContent::Add(a, b) => ExpressionContent::Add(
                Box::new(a.duplicate()),
                Box::new(b.duplicate()),
            ),
            ExpressionContent::Subtract(a, b) => ExpressionContent::Subtract(
                Box::new(a.duplicate()),
                Box::new(b.duplicate()),
            ),
            ExpressionContent::Multiply(a, b) => ExpressionContent::Multiply(
                Box::new(a.duplicate()),
                Box::new(b.duplicate()),
            ),
            ExpressionContent::Divide(a, b) => ExpressionContent::Divide(
                Box::new(a.duplicate()),
                Box::new(b.duplicate()),
            ),
            ExpressionContent::LessThan(a, b) => ExpressionContent::LessThan(
                Box::new(a.duplicate()),
                Box::new(b.duplicate()),
            ),
            ExpressionContent::Equal(a, b) => ExpressionContent::Equal(
                Box::new(a.duplicate()),
                Box::new(b.duplicate()),
            ),
            ExpressionContent::LogicAnd(a, b) => ExpressionContent::LogicAnd(
                Box::new(a.duplicate()),
                Box::new(b.duplicate()),
            ),
            ExpressionContent::BitShiftRight(a, b) => ExpressionContent::BitShiftRight(
                Box::new(a.duplicate()),
                Box::new(b.duplicate()),
            ),
        }
    }
}

impl<'a> AstNode<'a> {
    /// A copy of the node.
    pub fn duplicate(&self) -> (copy: Self)
        ensures
            copy.view() == self.view(),
        decreases self,
    {
        match self {
            AstNode::Empty => AstNode::Empty,
            AstNode::Preamble => AstNode::Preamble,
            AstNode::ClassDefinition { class } => AstNode::ClassDefinition { class: *class },
            AstNode::ReturnStatement { expression } => AstNode::ReturnStatement {
                expression: Box::new(expression.duplicate()),
            },
            AstNode::VariableAssignment { name, data_type, expression } => {
                AstNode::VariableAssignment {
                    name: *name,
                    data_type: *data_type,
                    expression: Box::new(expression.duplicate()),
                }
            },
            AstNode::IfThenBlock { condition, body } => {
                let copy = duplicate_nodes(body);
                let result = AstNode::IfThenBlock {
                    condition: Box::new(condition.duplicate()),
                    body: copy,
                };
                proof {
                    assert(result.view()->IfThenBlock_body =~= self.view()->IfThenBlock_body);
                }
                result
            },
            AstNode::WhileLoopBlock { condition, body } => {
                let copy = duplicate_nodes(body);
                let result = AstNode::WhileLoopBlock {
                    condition: Box::new(condition.duplicate()),
                    body: copy,
                };
                proof {
                    assert(result.view()->WhileLoopBlock_body =~= self.view()->WhileLoopBlock_body);
                }
                result
            },
            AstNode::TraitImplementation { result, parameters, body } => {
                let copy = duplicate_nodes(body);
                let parameters_copy = duplicate_values(parameters);
                let node = AstNode::TraitImplementation {
                    result: *result,
                    parameters: parameters_copy,
                    body: copy,
                };
                proof {
                    assert(node.view()->TraitImplementation_body
                        =~= self.view()->TraitImplementation_body);
                }
                node
            },
        }
    }
}

impl<'a> Clone for Expression<'a> {
    fn clone(&self) -> (copy: Self)
        ensures
            copy.view() == self.view(),
    {
        self.duplicate()
    }
}

impl<'a> Clone for ExpressionContent<'a> {
    fn clone(&self) -> (copy: Self)
        ensures
            copy.view() == self.view(),
    {
        self.duplicate()
    }
}

impl<'a> Clone for AstNode<'a> {
    fn clone(&self) -> (copy: Self)
        ensures
            copy.view() == self.view(),
    {
        self.duplicate()
    }
}

} // verus!
