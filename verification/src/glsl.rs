//! The emitter of the shader dialect: the text of a tree in GLSL.

use vstd::prelude::*;
use vstd::string::StringExecFns;
use crate::ast::{
    parameters_view, AstNode, AstNodeView, ContentView, DataType, DataTypeView, Expression,
    ExpressionContent, ExpressionView, Parameter, ParameterView,
};
use crate::algebra::BasisElement;
use crate::class::MultiVectorClass;
use crate::compile::class_of;
use crate::emit::{
    concatenated, decimal, element_names, emit_element_names, emit_function_name, emit_literal,
    has_function_name, is_named, joined, lemma_joined_push, operands, push_indentation,
    push_integer, push_number, push_snake_case, sign_of, spec_function_name, spec_indentation,
    spec_integer_text, spec_literal, spec_snake_case, Malformed,
};
use crate::tree::{arguments_view, same_text, statements_view};

verus! {

/// The name of a lane of a vector: `x`, `y`, `z` or `w`.
pub open spec fn component(lane: usize) -> Seq<char> {
    if lane == 0 {
        "x"@
    } else if lane == 1 {
        "y"@
    } else if lane == 2 {
        "z"@
    } else {
        "w"@
    }
}

/// The name of a type.
pub open spec fn glsl_data_type(data_type: DataTypeView) -> Seq<char> {
    match data_type {
        DataTypeView::Integer => "int"@,
        DataTypeView::SimdVector(size) => if size == 1 {
            "float"@
        } else {
            "vec"@ + decimal(size as nat)
        },
        DataTypeView::MultiVector(class) => class.class_name@,
    }
}

/// The prefix that the class of an operand adds to the name of a function.
pub open spec fn class_prefix(data_type: DataTypeView) -> Seq<char> {
    match data_type {
        DataTypeView::MultiVector(class) => spec_snake_case(class.class_name@) + "_"@,
        _ => Seq::empty(),
    }
}

/// Whether all lanes have a name.
pub open spec fn lanes_named(lanes: Seq<usize>) -> bool {
    forall|i: int| 0 <= i < lanes.len() ==> lanes[i] < 4
}

/// Whether an expression can be written: it holds no absent expression, its constants
/// have values and are no multivectors, and the lanes that it names exist.
pub open spec fn glsl_emittable(expression: ExpressionView) -> bool
    decreases expression,
{
    match expression.content {
        ContentView::Empty => false,
        ContentView::Variable(_) => true,
        ContentView::InvokeClassMethod(_, _, arguments) => forall|i: int|
            0 <= i < arguments.len() ==> glsl_emittable(#[trigger] arguments[i].1),
        ContentView::InvokeInstanceMethod(_, receiver, _, arguments) => glsl_emittable(*receiver)
            && forall|i: int|
            0 <= i < arguments.len() ==> glsl_emittable(#[trigger] arguments[i].1),
        ContentView::Conversion(_, _, inner) => glsl_emittable(*inner),
        ContentView::Select(condition, then, otherwise) => glsl_emittable(*condition)
            && glsl_emittable(*then) && glsl_emittable(*otherwise),
        ContentView::Access(inner, _) => glsl_emittable(*inner),
        ContentView::Swizzle(inner, lanes) => glsl_emittable(*inner) && lanes_named(lanes),
        ContentView::Gather(inner, pairs) => (pairs.len() > 0 ==> glsl_emittable(*inner)) && (
        inner.size > 1 ==> forall|i: int| 0 <= i < pairs.len() ==> (#[trigger] pairs[i]).1 < 4),
        ContentView::Constant(data_type, values) => match data_type {
            DataTypeView::Integer => values.len() > 0,
            DataTypeView::SimdVector(_) => expression.size == 1 ==> values.len() > 0,
            DataTypeView::MultiVector(_) => false,
        },
        ContentView::SquareRoot(inner) => glsl_emittable(*inner),
        ContentView::Add(a, b) => glsl_emittable(*a) && glsl_emittable(*b),
        ContentView::Subtract(a, b) => glsl_emittable(*a) && glsl_emittable(*b),
        ContentView::Multiply(a, b) => glsl_emittable(*a) && glsl_emittable(*b),
        ContentView::Divide(a, b) => glsl_emittable(*a) && glsl_emittable(*b),
        ContentView::LessThan(a, b) => glsl_emittable(*a) && glsl_emittable(*b),
        ContentView::Equal(a, b) => glsl_emittable(*a) && glsl_emittable(*b),
        ContentView::LogicAnd(a, b) => glsl_emittable(*a) && glsl_emittable(*b),
        ContentView::BitShiftRight(a, b) => glsl_emittable(*a) && glsl_emittable(*b),
    }
}

/// The texts of the arguments of a call.
pub open spec fn argument_texts(arguments: Seq<(DataTypeView, ExpressionView)>) -> Seq<Seq<char>>
    decreases arguments,
{
    Seq::new(
        arguments.len(),
        |i: int|
            if 0 <= i < arguments.len() {
                glsl_expression(arguments[i].1)
            } else {
                Seq::empty()
            },
    )
}

/// The text of an expression.
pub open spec fn glsl_expression(expression: ExpressionView) -> Seq<char>
    decreases expression,
{
    match expression.content {
        ContentView::Empty => Seq::empty(),
        ContentView::Variable(name) => name,
        ContentView::InvokeClassMethod(class, method, arguments) => {
            let name = if method == "Constructor"@ {
                class.class_name@
            } else {
                spec_snake_case(class.class_name@) + "_"@ + spec_snake_case(method)
            };
            name + "("@ + joined(argument_texts(arguments), ", "@) + ")"@
        },
        ContentView::InvokeInstanceMethod(receiver_type, receiver, method, arguments) => {
            class_prefix(receiver_type) + concatenated(argument_prefixes(arguments)) + spec_snake_case(method) + "("@
                + glsl_expression(*receiver) + (if arguments.len() > 0 {
                ", "@
            } else {
                Seq::empty()
            }) + joined(argument_texts(arguments), ", "@) + ")"@
        },
        ContentView::Conversion(source, destination, inner) => spec_snake_case(
            source.class_name@,
        ) + "_"@ + spec_snake_case(destination.class_name@) + "_into("@ + glsl_expression(*inner)
            + ")"@,
        ContentView::Select(condition, then, otherwise) => "("@ + glsl_expression(*condition)
            + ") ? "@ + glsl_expression(*then) + " : "@ + glsl_expression(*otherwise),
        ContentView::Access(inner, group) => glsl_expression(*inner) + ".g"@ + decimal(
            group as nat,
        ),
        ContentView::Swizzle(inner, lanes) => glsl_expression(*inner) + "."@ + concatenated(
            components(lanes),
        ),
        ContentView::Gather(inner, pairs) => {
            let source = glsl_expression(*inner);
            let parts = Seq::new(
                pairs.len(),
                |i: int| gathered_lane(source, inner.size, pairs[i]),
            );
            if expression.size > 1 {
                glsl_data_type(DataTypeView::SimdVector(expression.size)) + "("@ + joined(
                    parts,
                    ", "@,
                ) + ")"@
            } else {
                joined(parts, ", "@)
            }
        },
        ContentView::Constant(data_type, values) => match data_type {
            DataTypeView::Integer => spec_integer_text(values[0] as int),
            _ => if expression.size == 1 {
                spec_literal(values[0] as int)
            } else {
                glsl_data_type(DataTypeView::SimdVector(expression.size)) + "("@ + joined(
                    Seq::new(values.len(), |i: int| spec_literal(values[i] as int)),
                    ", "@,
                ) + ")"@
            },
        },
        ContentView::SquareRoot(inner) => "sqrt("@ + glsl_expression(*inner) + ")"@,
        ContentView::Add(a, b) => glsl_expression(*a) + " + "@ + glsl_expression(*b),
        ContentView::Subtract(a, b) => glsl_expression(*a) + " - "@ + glsl_expression(*b),
        ContentView::Multiply(a, b) => glsl_expression(*a) + " * "@ + glsl_expression(*b),
        ContentView::Divide(a, b) => glsl_expression(*a) + " / "@ + glsl_expression(*b),
        ContentView::LessThan(a, b) => glsl_expression(*a) + " < "@ + glsl_expression(*b),
        ContentView::Equal(a, b) => glsl_expression(*a) + " == "@ + glsl_expression(*b),
        ContentView::LogicAnd(a, b) => "("@ + glsl_expression(*a) + " & "@ + glsl_expression(*b)
            + ")"@,
        ContentView::BitShiftRight(a, b) => glsl_expression(*a) + " >> "@ + glsl_expression(*b),
    }
}

/// Appends the name of a lane.
fn push_component(collector: &mut String, lane: usize)
    requires
        lane < 4,
    ensures
        final(collector)@ == old(collector)@ + component(lane),
{
    if lane == 0 {
        collector.append("x");
    } else if lane == 1 {
        collector.append("y");
    } else if lane == 2 {
        collector.append("z");
    } else {
        collector.append("w");
    }
}

/// Appends the name of a type.
pub fn emit_data_type(collector: &mut String, data_type: &DataType)
    ensures
        final(collector)@ == old(collector)@ + glsl_data_type(data_type.view()),
{
    match data_type {
        DataType::Integer => {
            collector.append("int");
        },
        DataType::SimdVector(size) => {
            if *size == 1 {
                collector.append("float");
            } else {
                collector.append("vec");
                push_number(collector, *size);
                assert(collector@ =~= old(collector)@ + glsl_data_type(data_type.view()));
            }
        },
        DataType::MultiVector(class) => {
            collector.append(class.class_name.as_str());
        },
    }
}


/// Appends the arguments of a call, with commas between them.
fn emit_arguments<'a>(collector: &mut String, arguments: &Vec<(DataType<'a>, Expression<'a>)>) -> (result:
    Result<(), Malformed>)
    ensures
        match result {
            Ok(_) => {
                &&& forall|i: int|
                    0 <= i < arguments@.len() ==> glsl_emittable((#[trigger] arguments@[i]).1.view())
                &&& final(collector)@ == old(collector)@ + joined(
                    argument_texts(arguments_view(arguments@)),
                    ", "@,
                )
            },
            Err(_) => exists|i: int|
                0 <= i < arguments@.len() && !glsl_emittable((#[trigger] arguments@[i]).1.view()),
        },
    decreases arguments,
{
    let ghost texts = argument_texts(arguments_view(arguments@));
    let mut i: usize = 0;
    assert(collector@ =~= old(collector)@ + joined(texts.take(0), ", "@));
    while i < arguments.len()
        invariant
            i <= arguments.len(),
            texts == argument_texts(arguments_view(arguments@)),
            forall|k: int| 0 <= k < i ==> glsl_emittable((#[trigger] arguments@[k]).1.view()),
            collector@ == old(collector)@ + joined(texts.take(i as int), ", "@),
        decreases arguments.len() - i,
    {
        let ghost before = collector@;
        if i > 0 {
            collector.append(", ");
        }
        match write_expression(collector, &arguments[i].1) {
            Ok(_) => {},
            Err(error) => {
                return Err(error);
            },
        }
        proof {
            assert(texts.take(i as int + 1) =~= texts.take(i as int).push(texts[i as int]));
            lemma_joined_push(texts.take(i as int), ", "@, texts[i as int]);
            assert(collector@ =~= old(collector)@ + joined(texts.take(i as int + 1), ", "@));
        }
        i += 1;
    }
    assert(texts.take(arguments.len() as int) =~= texts);
    Ok(())
}

/// Appends the text of an expression, as far as it can be written.
fn write_expression<'a>(collector: &mut String, expression: &Expression<'a>) -> (result: Result<
    (),
    Malformed,
>)
    ensures
        match result {
            Ok(_) => glsl_emittable(expression.view()) && final(collector)@ == old(collector)@
                + glsl_expression(expression.view()),
            Err(_) => !glsl_emittable(expression.view()),
        },
    decreases expression, 1int,
{
    let ghost start = collector@;
    let ghost view = expression.view();
    match &expression.content {
        ExpressionContent::Empty => {
            return Err(Malformed);
        },
        ExpressionContent::Variable(name) => {
            collector.append(name);
        },
        ExpressionContent::InvokeClassMethod(_, _, _) => {
            return emit_class_call(collector, expression);
        },
        ExpressionContent::InvokeInstanceMethod(_, _, _, _) => {
            return emit_method_call(collector, expression);
        },
        ExpressionContent::Conversion(source, destination, inner) => {
            push_snake_case(collector, source.class_name.as_str());
            collector.append("_");
            push_snake_case(collector, destination.class_name.as_str());
            collector.append("_into(");
            match write_expression(collector, inner) {
                Ok(_) => {},
                Err(error) => {
                    return Err(error);
                },
            }
            collector.append(")");
            assert(collector@ =~= start + glsl_expression(view));
        },
        ExpressionContent::Select(condition, then, otherwise) => {
            collector.append("(");
            match write_expression(collector, condition) {
                Ok(_) => {},
                Err(error) => {
                    return Err(error);
                },
            }
            collector.append(") ? ");
            match write_expression(collector, then) {
                Ok(_) => {},
                Err(error) => {
                    return Err(error);
                },
            }
            collector.append(" : ");
            match write_expression(collector, otherwise) {
                Ok(_) => {},
                Err(error) => {
                    return Err(error);
                },
            }
            assert(collector@ =~= start + glsl_expression(view));
        },
        ExpressionContent::Access(inner, group) => {
            match write_expression(collector, inner) {
                Ok(_) => {},
                Err(error) => {
                    return Err(error);
                },
            }
            collector.append(".g");
            push_number(collector, *group);
            assert(collector@ =~= start + glsl_expression(view));
        },
        ExpressionContent::Swizzle(_, _) => {
            return emit_swizzle(collector, expression);
        },
        ExpressionContent::Gather(_, _) => {
            return emit_gather(collector, expression);
        },
        ExpressionContent::Constant(_, _) => {
            return emit_constant(collector, expression);
        },
        ExpressionContent::SquareRoot(inner) => {
            collector.append("sqrt(");
            match write_expression(collector, inner) {
                Ok(_) => {},
                Err(error) => {
                    return Err(error);
                },
            }
            collector.append(")");
            assert(collector@ =~= start + glsl_expression(view));
        },
        _ => {
            return emit_binary(collector, expression);
        },
    }
    Ok(())
}

/// Appends a call of a function of a class.
fn emit_class_call<'a>(collector: &mut String, expression: &Expression<'a>) -> (result: Result<
    (),
    Malformed,
>)
    requires
        expression.content is InvokeClassMethod,
    ensures
        match result {
            Ok(_) => glsl_emittable(expression.view()) && final(collector)@ == old(collector)@
                + glsl_expression(expression.view()),
            Err(_) => !glsl_emittable(expression.view()),
        },
    decreases expression, 0int,
{
    let ghost start = collector@;
    let ghost view = expression.view();
    match &expression.content {
        ExpressionContent::InvokeClassMethod(class, method, arguments) => {
            let ghost values = arguments_view(arguments@);
            proof {
                assert(view.content->InvokeClassMethod_2 =~= values);
            }
            if same_text(method, "Constructor") {
                collector.append(class.class_name.as_str());
            } else {
                push_snake_case(collector, class.class_name.as_str());
                collector.append("_");
                push_snake_case(collector, method);
            }
            collector.append("(");
            match emit_arguments(collector, arguments) {
                Ok(_) => {
                    assert forall|i: int| 0 <= i < values.len() implies glsl_emittable(
                        #[trigger] values[i].1,
                    ) by {
                        assert(glsl_emittable(arguments@[i].1.view()));
                    }
                },
                Err(error) => {
                    proof {
                        let i = choose|i: int|
                            0 <= i < arguments@.len() && !glsl_emittable(
                                (#[trigger] arguments@[i]).1.view(),
                            );
                        assert(!glsl_emittable(values[i].1));
                    }
                    return Err(error);
                },
            }
            collector.append(")");
            assert(collector@ =~= start + glsl_expression(view));
            Ok(())
        },
        _ => Err(Malformed),
    }
}

/// Appends a call of a function on a receiver.
fn emit_method_call<'a>(collector: &mut String, expression: &Expression<'a>) -> (result: Result<
    (),
    Malformed,
>)
    requires
        expression.content is InvokeInstanceMethod,
    ensures
        match result {
            Ok(_) => glsl_emittable(expression.view()) && final(collector)@ == old(collector)@
                + glsl_expression(expression.view()),
            Err(_) => !glsl_emittable(expression.view()),
        },
    decreases expression, 0int,
{
    let ghost start = collector@;
    let ghost view = expression.view();
    match &expression.content {
        ExpressionContent::InvokeInstanceMethod(receiver_type, receiver, method, arguments) => {
            let ghost values = arguments_view(arguments@);
            proof {
                assert(view.content->InvokeInstanceMethod_3 =~= values);
            }
            emit_class_prefix(collector, receiver_type);
            emit_argument_prefixes(collector, arguments);
            push_snake_case(collector, method);
            collector.append("(");
            match write_expression(collector, receiver) {
                Ok(_) => {},
                Err(error) => {
                    return Err(error);
                },
            }
            if arguments.len() > 0 {
                collector.append(", ");
            }
            match emit_arguments(collector, arguments) {
                Ok(_) => {
                    assert forall|i: int| 0 <= i < values.len() implies glsl_emittable(
                        #[trigger] values[i].1,
                    ) by {
                        assert(glsl_emittable(arguments@[i].1.view()));
                    }
                },
                Err(error) => {
                    proof {
                        let i = choose|i: int|
                            0 <= i < arguments@.len() && !glsl_emittable(
                                (#[trigger] arguments@[i]).1.view(),
                            );
                        assert(!glsl_emittable(values[i].1));
                    }
                    return Err(error);
                },
            }
            collector.append(")");
            assert(collector@ =~= start + glsl_expression(view));
            Ok(())
        },
        _ => Err(Malformed),
    }
}

/// Appends the prefix that the class of an operand adds to the name of a function.
fn emit_class_prefix(collector: &mut String, data_type: &DataType)
    ensures
        final(collector)@ == old(collector)@ + class_prefix(data_type.view()),
{
    match data_type {
        DataType::MultiVector(class) => {
            push_snake_case(collector, class.class_name.as_str());
            collector.append("_");
            assert(collector@ =~= old(collector)@ + class_prefix(data_type.view()));
        },
        _ => {
            assert(collector@ =~= old(collector)@ + class_prefix(data_type.view()));
        },
    }
}

/// The prefixes that the classes of the arguments add to the name of a function.
pub open spec fn argument_prefixes(arguments: Seq<(DataTypeView, ExpressionView)>) -> Seq<
    Seq<char>,
> {
    Seq::new(arguments.len(), |i: int| class_prefix(arguments[i].0))
}

/// Appends the prefixes of all arguments.
fn emit_argument_prefixes<'a>(
    collector: &mut String,
    arguments: &Vec<(DataType<'a>, Expression<'a>)>,
)
    ensures
        final(collector)@ == old(collector)@ + concatenated(
            argument_prefixes(arguments_view(arguments@)),
        ),
{
    let ghost prefixes = argument_prefixes(arguments_view(arguments@));
    let mut i: usize = 0;
    assert(collector@ =~= old(collector)@ + concatenated(prefixes.take(0)));
    while i < arguments.len()
        invariant
            i <= arguments.len(),
            prefixes == argument_prefixes(arguments_view(arguments@)),
            collector@ == old(collector)@ + concatenated(prefixes.take(i as int)),
        decreases arguments.len() - i,
    {
        emit_class_prefix(collector, &arguments[i].0);
        proof {
            assert(prefixes.take(i as int + 1) =~= prefixes.take(i as int).push(prefixes[i as int]));
            lemma_joined_push(prefixes.take(i as int), Seq::empty(), prefixes[i as int]);
            assert(collector@ =~= old(collector)@ + concatenated(prefixes.take(i as int + 1)));
        }
        i += 1;
    }
    assert(prefixes.take(arguments.len() as int) =~= prefixes);
}

/// The names of a list of lanes.
pub open spec fn components(lanes: Seq<usize>) -> Seq<Seq<char>> {
    Seq::new(lanes.len(), |i: int| component(lanes[i]))
}

/// Appends a choice of lanes.
fn emit_swizzle<'a>(collector: &mut String, expression: &Expression<'a>) -> (result: Result<
    (),
    Malformed,
>)
    requires
        expression.content is Swizzle,
    ensures
        match result {
            Ok(_) => glsl_emittable(expression.view()) && final(collector)@ == old(collector)@
                + glsl_expression(expression.view()),
            Err(_) => !glsl_emittable(expression.view()),
        },
    decreases expression, 0int,
{
    let ghost start = collector@;
    let ghost view = expression.view();
    match &expression.content {
        ExpressionContent::Swizzle(inner, lanes) => {
            match write_expression(collector, inner) {
                Ok(_) => {},
                Err(error) => {
                    return Err(error);
                },
            }
            collector.append(".");
            let ghost dotted = collector@;
            let ghost names = components(lanes@);
            let mut i: usize = 0;
            assert(collector@ =~= dotted + concatenated(names.take(0)));
            while i < lanes.len()
                invariant
                    i <= lanes.len(),
                    names == components(lanes@),
                    forall|k: int| 0 <= k < i ==> lanes@[k] < 4,
                    collector@ == dotted + concatenated(names.take(i as int)),
                    view == expression.view(),
                    view.content == ContentView::Swizzle(Box::new(inner.view()), lanes@),
                decreases lanes.len() - i,
            {
                if lanes[i] >= 4 {
                    assert(!(lanes@[i as int] < 4));
                    return Err(Malformed);
                }
                push_component(collector, lanes[i]);
                proof {
                    assert(names.take(i as int + 1) =~= names.take(i as int).push(names[i as int]));
                    lemma_joined_push(names.take(i as int), Seq::empty(), names[i as int]);
                    assert(collector@ =~= dotted + concatenated(names.take(i as int + 1)));
                }
                i += 1;
            }
            assert(names.take(lanes.len() as int) =~= names);
            assert(collector@ =~= start + glsl_expression(view));
            Ok(())
        },
        _ => Err(Malformed),
    }
}

/// The text of one lane of a gathered vector.
pub open spec fn gathered_lane(source: Seq<char>, width: usize, pair: (usize, usize)) -> Seq<char> {
    source + ".g"@ + decimal(pair.0 as nat) + if width > 1 {
        "."@ + component(pair.1)
    } else {
        Seq::empty()
    }
}

/// Appends a vector whose lanes are picked from the groups of an expression.
fn emit_gather<'a>(collector: &mut String, expression: &Expression<'a>) -> (result: Result<
    (),
    Malformed,
>)
    requires
        expression.content is Gather,
    ensures
        match result {
            Ok(_) => glsl_emittable(expression.view()) && final(collector)@ == old(collector)@
                + glsl_expression(expression.view()),
            Err(_) => !glsl_emittable(expression.view()),
        },
    decreases expression, 0int,
{
    let ghost start = collector@;
    let ghost view = expression.view();
    match &expression.content {
        ExpressionContent::Gather(inner, pairs) => {
            if expression.size > 1 {
                emit_data_type(collector, &DataType::SimdVector(expression.size));
                collector.append("(");
            }
            let ghost opened = collector@;
            let ghost source = glsl_expression(inner.view());
            let ghost parts = Seq::new(
                pairs@.len(),
                |i: int| gathered_lane(source, inner.size, pairs@[i]),
            );
            let mut i: usize = 0;
            assert(collector@ =~= opened + joined(parts.take(0), ", "@));
            while i < pairs.len()
                invariant
                    i <= pairs.len(),
                    source == glsl_expression(inner.view()),
                    parts == Seq::new(
                        pairs@.len(),
                        |i: int| gathered_lane(source, inner.size, pairs@[i]),
                    ),
                    i > 0 ==> glsl_emittable(inner.view()),
                    inner.size > 1 ==> forall|k: int| 0 <= k < i ==> (#[trigger] pairs@[k]).1 < 4,
                    collector@ == opened + joined(parts.take(i as int), ", "@),
                    view == expression.view(),
                    view.content == ContentView::Gather(Box::new(inner.view()), pairs@),
                    expression.content == ExpressionContent::Gather(*inner, *pairs),
                decreases pairs.len() - i,
            {
                let ghost before = collector@;
                if i > 0 {
                    collector.append(", ");
                }
                match write_expression(collector, inner) {
                    Ok(_) => {},
                    Err(error) => {
                        return Err(error);
                    },
                }
                collector.append(".g");
                push_number(collector, pairs[i].0);
                if inner.size > 1 {
                    if pairs[i].1 >= 4 {
                        assert(view.content->Gather_0.size > 1);
                        assert(view.content->Gather_1[i as int].1 >= 4);
                        return Err(Malformed);
                    }
                    collector.append(".");
                    push_component(collector, pairs[i].1);
                }
                proof {
                    assert(parts.take(i as int + 1) =~= parts.take(i as int).push(parts[i as int]));
                    lemma_joined_push(parts.take(i as int), ", "@, parts[i as int]);
                    assert(collector@ =~= before + (if i > 0 {
                        ", "@
                    } else {
                        Seq::empty()
                    }) + parts[i as int]);
                    assert(collector@ =~= opened + joined(parts.take(i as int + 1), ", "@));
                }
                i += 1;
            }
            assert(parts.take(pairs.len() as int) =~= parts);
            if expression.size > 1 {
                collector.append(")");
            }
            assert(collector@ =~= start + glsl_expression(view));
            Ok(())
        },
        _ => Err(Malformed),
    }
}

/// Appends a constant.
fn emit_constant<'a>(collector: &mut String, expression: &Expression<'a>) -> (result: Result<
    (),
    Malformed,
>)
    requires
        expression.content is Constant,
    ensures
        match result {
            Ok(_) => glsl_emittable(expression.view()) && final(collector)@ == old(collector)@
                + glsl_expression(expression.view()),
            Err(_) => !glsl_emittable(expression.view()),
        },
{
    let ghost start = collector@;
    let ghost view = expression.view();
    match &expression.content {
        ExpressionContent::Constant(data_type, values) => {
            match data_type {
                DataType::Integer => {
                    if values.len() == 0 {
                        return Err(Malformed);
                    }
                    push_integer(collector, values[0]);
                    Ok(())
                },
                DataType::SimdVector(_) => {
                    if expression.size == 1 {
                        if values.len() == 0 {
                            return Err(Malformed);
                        }
                        collector.append(emit_literal(values[0]).as_str());
                        return Ok(());
                    }
                    emit_data_type(collector, &DataType::SimdVector(expression.size));
                    collector.append("(");
                    let ghost opened = collector@;
                    let ghost parts = Seq::new(
                        values@.len(),
                        |i: int| spec_literal(values@[i] as int),
                    );
                    let mut i: usize = 0;
                    assert(collector@ =~= opened + joined(parts.take(0), ", "@));
                    while i < values.len()
                        invariant
                            i <= values.len(),
                            parts == Seq::new(
                                values@.len(),
                                |i: int| spec_literal(values@[i] as int),
                            ),
                            collector@ == opened + joined(parts.take(i as int), ", "@),
                        decreases values.len() - i,
                    {
                        let ghost before = collector@;
                        if i > 0 {
                            collector.append(", ");
                        }
                        collector.append(emit_literal(values[i]).as_str());
                        proof {
                            assert(parts.take(i as int + 1) =~= parts.take(i as int).push(
                                parts[i as int],
                            ));
                            lemma_joined_push(parts.take(i as int), ", "@, parts[i as int]);
                            assert(collector@ =~= opened + joined(parts.take(i as int + 1), ", "@));
                        }
                        i += 1;
                    }
                    assert(parts.take(values.len() as int) =~= parts);
                    collector.append(")");
                    assert(collector@ =~= start + glsl_expression(view));
                    Ok(())
                },
                DataType::MultiVector(_) => Err(Malformed),
            }
        },
        _ => Err(Malformed),
    }
}

/// Appends the two operands of a binary operation with its sign between them.
fn emit_binary<'a>(collector: &mut String, expression: &Expression<'a>) -> (result: Result<
    (),
    Malformed,
>)
    requires
        operands(expression.view().content) is Some,
    ensures
        match result {
            Ok(_) => glsl_emittable(expression.view()) && final(collector)@ == old(collector)@
                + glsl_expression(expression.view()),
            Err(_) => !glsl_emittable(expression.view()),
        },
    decreases expression, 0int,
{
    let ghost start = collector@;
    let ghost view = expression.view();
    let sign = sign_of(&expression.content);
    match &expression.content {
        ExpressionContent::Add(a, b)
        | ExpressionContent::Subtract(a, b)
        | ExpressionContent::Multiply(a, b)
        | ExpressionContent::Divide(a, b)
        | ExpressionContent::LessThan(a, b)
        | ExpressionContent::Equal(a, b)
        | ExpressionContent::LogicAnd(a, b)
        | ExpressionContent::BitShiftRight(a, b) => {
            let bracketed = matches!(expression.content, ExpressionContent::LogicAnd(_, _));
            if bracketed {
                collector.append("(");
            }
            match write_expression(collector, a) {
                Ok(_) => {},
                Err(error) => {
                    return Err(error);
                },
            }
            collector.append(sign);
            match write_expression(collector, b) {
                Ok(_) => {},
                Err(error) => {
                    return Err(error);
                },
            }
            if bracketed {
                collector.append(")");
            }
            assert(collector@ =~= start + glsl_expression(view));
            Ok(())
        },
        _ => Err(Malformed),
    }
}

/// The declaration of one group of a class: a comment that names its elements, then
/// the field.
pub open spec fn group_declaration(
    group: Seq<BasisElement>,
    place: nat,
    indentation: nat,
) -> Seq<char> {
    spec_indentation(indentation) + "// "@ + joined(element_names(group), ", "@) + "\n"@
        + spec_indentation(indentation) + glsl_data_type(
        DataTypeView::SimdVector(group.len() as usize),
    ) + " g"@ + decimal(place) + ";\n"@
}

/// The declarations of all groups of a class.
pub open spec fn group_declarations(class: MultiVectorClass, indentation: nat) -> Seq<Seq<char>> {
    Seq::new(
        class.grouped_basis@.len(),
        |i: int| group_declaration(class.grouped_basis@[i]@, i as nat, indentation),
    )
}

/// The declaration of one parameter: its type and its name.
pub open spec fn parameter_text(parameter: ParameterView) -> Seq<char> {
    glsl_data_type(parameter.data_type) + " "@ + parameter.name
}

/// The declarations of the parameters.
pub open spec fn parameter_texts(parameters: Seq<ParameterView>) -> Seq<Seq<char>> {
    Seq::new(parameters.len(), |i: int| parameter_text(parameters[i]))
}

/// Whether a node can be written at the given depth: its expressions can be written,
/// its functions can be named, and the depth of what it holds is a machine number.
pub open spec fn glsl_code_emittable(node: AstNodeView, indentation: nat) -> bool
    decreases node,
{
    match node {
        AstNodeView::Empty => true,
        AstNodeView::Preamble => true,
        AstNodeView::ClassDefinition { class } => indentation < usize::MAX,
        AstNodeView::ReturnStatement { expression } => glsl_emittable(expression),
        AstNodeView::VariableAssignment { name, data_type, expression } => glsl_emittable(
            expression,
        ),
        AstNodeView::IfThenBlock { condition, body } => glsl_emittable(condition) && indentation
            < usize::MAX && forall|i: int|
            0 <= i < body.len() ==> glsl_code_emittable(#[trigger] body[i], indentation + 1),
        AstNodeView::WhileLoopBlock { condition, body } => glsl_emittable(condition)
            && indentation < usize::MAX && forall|i: int|
            0 <= i < body.len() ==> glsl_code_emittable(#[trigger] body[i], indentation + 1),
        AstNodeView::TraitImplementation { result, parameters, body } => has_function_name(
            result,
            parameters,
        ) && indentation < usize::MAX && forall|i: int|
            0 <= i < body.len() ==> glsl_code_emittable(#[trigger] body[i], indentation + 1),
    }
}

/// The texts of the statements of a block, each after its indentation.
pub open spec fn statement_texts(statements: Seq<AstNodeView>, indentation: nat) -> Seq<Seq<char>>
    decreases statements,
{
    Seq::new(
        statements.len(),
        |i: int|
            if 0 <= i < statements.len() {
                spec_indentation(indentation) + glsl_code(statements[i], indentation)
            } else {
                Seq::empty()
            },
    )
}

/// The text of a node at the given depth.
pub open spec fn glsl_code(node: AstNodeView, indentation: nat) -> Seq<char>
    decreases node,
{
    match node {
        AstNodeView::Empty => Seq::empty(),
        AstNodeView::Preamble => Seq::empty(),
        AstNodeView::ClassDefinition { class } => "struct "@ + class.class_name@ + " {\n"@
            + concatenated(group_declarations(class, indentation + 1)) + spec_indentation(
            indentation,
        ) + "};\n\n"@,
        AstNodeView::ReturnStatement { expression } => "return "@ + glsl_expression(expression)
            + ";\n"@,
        AstNodeView::VariableAssignment { name, data_type, expression } => (match data_type {
            Some(data_type) => glsl_data_type(data_type) + " "@,
            None => Seq::empty(),
        }) + name + " = "@ + glsl_expression(expression) + ";\n"@,
        AstNodeView::IfThenBlock { condition, body } => "if("@ + glsl_expression(condition)
            + ") {\n"@ + concatenated(statement_texts(body, indentation + 1)) + spec_indentation(
            indentation,
        ) + "}\n"@,
        AstNodeView::WhileLoopBlock { condition, body } => "while("@ + glsl_expression(condition)
            + ") {\n"@ + concatenated(statement_texts(body, indentation + 1)) + spec_indentation(
            indentation,
        ) + "}\n"@,
        AstNodeView::TraitImplementation { result, parameters, body } => class_of(
            result.data_type,
        ).class_name@ + " "@ + spec_function_name(result, parameters) + "("@ + joined(
            parameter_texts(parameters),
            ", "@,
        ) + ") {\n"@ + concatenated(statement_texts(body, indentation + 1)) + spec_indentation(
            indentation,
        ) + "}\n\n"@,
    }
}

/// Appends the definition of a class.
fn emit_class_definition(collector: &mut String, class: &MultiVectorClass, indentation: usize)
    requires
        indentation < usize::MAX,
    ensures
        final(collector)@ == old(collector)@ + glsl_code(
            AstNodeView::ClassDefinition { class: *class },
            indentation as nat,
        ),
{
    let ghost start = collector@;
    collector.append("struct ");
    collector.append(class.class_name.as_str());
    collector.append(" {\n");
    let ghost opened = collector@;
    let ghost parts = group_declarations(*class, indentation as nat + 1);
    let mut i: usize = 0;
    assert(collector@ =~= opened + concatenated(parts.take(0)));
    while i < class.grouped_basis.len()
        invariant
            i <= class.grouped_basis.len(),
            indentation < usize::MAX,
            parts == group_declarations(*class, indentation as nat + 1),
            collector@ == opened + concatenated(parts.take(i as int)),
        decreases class.grouped_basis.len() - i,
    {
        let ghost before = collector@;
        let group = &class.grouped_basis[i];
        push_indentation(collector, indentation + 1);
        collector.append("// ");
        emit_element_names(collector, group);
        collector.append("\n");
        push_indentation(collector, indentation + 1);
        emit_data_type(collector, &DataType::SimdVector(group.len()));
        collector.append(" g");
        push_number(collector, i);
        collector.append(";\n");
        proof {
            assert(collector@ =~= before + group_declaration(
                group@,
                i as nat,
                indentation as nat + 1,
            ));
            assert(parts.take(i as int + 1) =~= parts.take(i as int).push(parts[i as int]));
            lemma_joined_push(parts.take(i as int), Seq::empty(), parts[i as int]);
            assert(collector@ =~= opened + concatenated(parts.take(i as int + 1)));
        }
        i += 1;
    }
    assert(parts.take(class.grouped_basis.len() as int) =~= parts);
    push_indentation(collector, indentation);
    collector.append("};\n\n");
    assert(collector@ =~= start + glsl_code(
        AstNodeView::ClassDefinition { class: *class },
        indentation as nat,
    ));
}

/// Appends the declarations of the parameters, with commas between them.
fn emit_parameters(collector: &mut String, parameters: &Vec<Parameter>)
    ensures
        final(collector)@ == old(collector)@ + joined(
            parameter_texts(parameters_view(parameters@)),
            ", "@,
        ),
{
    let ghost texts = parameter_texts(parameters_view(parameters@));
    let mut i: usize = 0;
    assert(collector@ =~= old(collector)@ + joined(texts.take(0), ", "@));
    while i < parameters.len()
        invariant
            i <= parameters.len(),
            texts == parameter_texts(parameters_view(parameters@)),
            collector@ == old(collector)@ + joined(texts.take(i as int), ", "@),
        decreases parameters.len() - i,
    {
        let ghost before = collector@;
        if i > 0 {
            collector.append(", ");
        }
        emit_data_type(collector, &parameters[i].data_type);
        collector.append(" ");
        collector.append(parameters[i].name);
        proof {
            assert(parameters_view(parameters@)[i as int] == parameters@[i as int].view());
            assert(texts.take(i as int + 1) =~= texts.take(i as int).push(texts[i as int]));
            lemma_joined_push(texts.take(i as int), ", "@, texts[i as int]);
            assert(collector@ =~= old(collector)@ + joined(texts.take(i as int + 1), ", "@));
        }
        i += 1;
    }
    assert(texts.take(parameters.len() as int) =~= texts);
}

/// Appends the statements of a block, each after its indentation.
fn emit_statements<'a>(collector: &mut String, body: &Vec<AstNode<'a>>, indentation: usize) -> (result:
    Result<(), Malformed>)
    ensures
        match result {
            Ok(_) => {
                &&& forall|i: int|
                    0 <= i < body@.len() ==> glsl_code_emittable(
                        (#[trigger] body@[i]).view(),
                        indentation as nat,
                    )
                &&& final(collector)@ == old(collector)@ + concatenated(
                    statement_texts(statements_view(body@), indentation as nat),
                )
            },
            Err(_) => exists|i: int|
                0 <= i < body@.len() && !glsl_code_emittable(
                    (#[trigger] body@[i]).view(),
                    indentation as nat,
                ),
        },
    decreases body, 0int,
{
    let ghost texts = statement_texts(statements_view(body@), indentation as nat);
    let mut i: usize = 0;
    assert(collector@ =~= old(collector)@ + concatenated(texts.take(0)));
    while i < body.len()
        invariant
            i <= body.len(),
            texts == statement_texts(statements_view(body@), indentation as nat),
            forall|k: int|
                0 <= k < i ==> glsl_code_emittable((#[trigger] body@[k]).view(), indentation as nat),
            collector@ == old(collector)@ + concatenated(texts.take(i as int)),
        decreases body.len() - i,
    {
        push_indentation(collector, indentation);
        match write_code(collector, &body[i], indentation) {
            Ok(_) => {},
            Err(error) => {
                return Err(error);
            },
        }
        proof {
            assert(texts.take(i as int + 1) =~= texts.take(i as int).push(texts[i as int]));
            lemma_joined_push(texts.take(i as int), Seq::empty(), texts[i as int]);
            assert(collector@ =~= old(collector)@ + concatenated(texts.take(i as int + 1)));
        }
        i += 1;
    }
    assert(texts.take(body.len() as int) =~= texts);
    Ok(())
}

/// Appends the statements of the body of a block one level deeper, then the
/// indentation of the block itself.
fn emit_body<'a>(collector: &mut String, body: &Vec<AstNode<'a>>, indentation: usize) -> (result:
    Result<(), Malformed>)
    ensures
        match result {
            Ok(_) => {
                &&& indentation < usize::MAX
                &&& forall|i: int|
                    0 <= i < body@.len() ==> glsl_code_emittable(
                        #[trigger] statements_view(body@)[i],
                        indentation as nat + 1,
                    )
                &&& final(collector)@ == old(collector)@ + concatenated(
                    statement_texts(statements_view(body@), indentation as nat + 1),
                ) + spec_indentation(indentation as nat)
            },
            Err(_) => indentation == usize::MAX || exists|i: int|
                0 <= i < body@.len() && !glsl_code_emittable(
                    #[trigger] statements_view(body@)[i],
                    indentation as nat + 1,
                ),
        },
    decreases body, 1int,
{
    if indentation == usize::MAX {
        return Err(Malformed);
    }
    match emit_statements(collector, body, indentation + 1) {
        Ok(_) => {
            assert forall|i: int| 0 <= i < body@.len() implies glsl_code_emittable(
                #[trigger] statements_view(body@)[i],
                indentation as nat + 1,
            ) by {
                assert(glsl_code_emittable(body@[i].view(), indentation as nat + 1));
            }
        },
        Err(error) => {
            proof {
                let i = choose|i: int|
                    0 <= i < body@.len() && !glsl_code_emittable(
                        (#[trigger] body@[i]).view(),
                        (indentation + 1) as nat,
                    );
                assert(!glsl_code_emittable(statements_view(body@)[i], indentation as nat + 1));
            }
            return Err(error);
        },
    }
    push_indentation(collector, indentation);
    Ok(())
}

/// Appends the text of a node at the given depth, as far as it can be written.
fn write_code<'a>(collector: &mut String, node: &AstNode<'a>, indentation: usize) -> (result:
    Result<(), Malformed>)
    ensures
        match result {
            Ok(_) => glsl_code_emittable(node.view(), indentation as nat) && final(collector)@
                == old(collector)@ + glsl_code(node.view(), indentation as nat),
            Err(_) => !glsl_code_emittable(node.view(), indentation as nat),
        },
    decreases node, 1int,
{
    let ghost start = collector@;
    let ghost view = node.view();
    match node {
        AstNode::Empty => {
            assert(collector@ =~= start + glsl_code(view, indentation as nat));
        },
        AstNode::Preamble => {
            assert(collector@ =~= start + glsl_code(view, indentation as nat));
        },
        AstNode::ClassDefinition { class } => {
            if indentation == usize::MAX {
                return Err(Malformed);
            }
            emit_class_definition(collector, class, indentation);
        },
        AstNode::ReturnStatement { expression } => {
            collector.append("return ");
            match write_expression(collector, expression) {
                Ok(_) => {},
                Err(error) => {
                    return Err(error);
                },
            }
            collector.append(";\n");
            assert(collector@ =~= start + glsl_code(view, indentation as nat));
        },
        AstNode::VariableAssignment { name, data_type, expression } => {
            match data_type {
                Some(data_type) => {
                    emit_data_type(collector, data_type);
                    collector.append(" ");
                },
                None => {},
            }
            collector.append(name);
            collector.append(" = ");
            match write_expression(collector, expression) {
                Ok(_) => {},
                Err(error) => {
                    return Err(error);
                },
            }
            collector.append(";\n");
            assert(collector@ =~= start + glsl_code(view, indentation as nat));
        },
        AstNode::IfThenBlock { .. } => {
            return emit_block(collector, node, indentation);
        },
        AstNode::WhileLoopBlock { .. } => {
            return emit_block(collector, node, indentation);
        },
        AstNode::TraitImplementation { .. } => {
            return emit_function(collector, node, indentation);
        },
    }
    Ok(())
}

/// Appends a conditional block or a loop.
fn emit_block<'a>(collector: &mut String, node: &AstNode<'a>, indentation: usize) -> (result:
    Result<(), Malformed>)
    requires
        node is IfThenBlock || node is WhileLoopBlock,
    ensures
        match result {
            Ok(_) => glsl_code_emittable(node.view(), indentation as nat) && final(collector)@
                == old(collector)@ + glsl_code(node.view(), indentation as nat),
            Err(_) => !glsl_code_emittable(node.view(), indentation as nat),
        },
    decreases node, 0int,
{
    let ghost start = collector@;
    let ghost view = node.view();
    match node {
        AstNode::IfThenBlock { condition, body } => {
            proof {
                assert(view->IfThenBlock_body =~= statements_view(body@));
            }
            collector.append("if(");
            match write_expression(collector, condition) {
                Ok(_) => {},
                Err(error) => {
                    return Err(error);
                },
            }
            collector.append(") {\n");
            match emit_body(collector, body, indentation) {
                Ok(_) => {},
                Err(error) => {
                    return Err(error);
                },
            }
            collector.append("}\n");
            assert(collector@ =~= start + glsl_code(view, indentation as nat));
            Ok(())
        },
        AstNode::WhileLoopBlock { condition, body } => {
            proof {
                assert(view->WhileLoopBlock_body =~= statements_view(body@));
            }
            collector.append("while(");
            match write_expression(collector, condition) {
                Ok(_) => {},
                Err(error) => {
                    return Err(error);
                },
            }
            collector.append(") {\n");
            match emit_body(collector, body, indentation) {
                Ok(_) => {},
                Err(error) => {
                    return Err(error);
                },
            }
            collector.append("}\n");
            assert(collector@ =~= start + glsl_code(view, indentation as nat));
            Ok(())
        },
        _ => Err(Malformed),
    }
}

/// Appends the definition of a function.
fn emit_function<'a>(collector: &mut String, node: &AstNode<'a>, indentation: usize) -> (result:
    Result<(), Malformed>)
    requires
        node is TraitImplementation,
    ensures
        match result {
            Ok(_) => glsl_code_emittable(node.view(), indentation as nat) && final(collector)@
                == old(collector)@ + glsl_code(node.view(), indentation as nat),
            Err(_) => !glsl_code_emittable(node.view(), indentation as nat),
        },
    decreases node, 0int,
{
    let ghost start = collector@;
    let ghost view = node.view();
    match node {
        AstNode::TraitImplementation { result, parameters, body } => {
            proof {
                assert(view->TraitImplementation_body =~= statements_view(body@));
            }
            if !is_named(result, parameters) {
                return Err(Malformed);
            }
            collector.append(result.multi_vector_class().class_name.as_str());
            collector.append(" ");
            collector.append(emit_function_name(result, parameters).as_str());
            collector.append("(");
            emit_parameters(collector, parameters);
            collector.append(") {\n");
            match emit_body(collector, body, indentation) {
                Ok(_) => {},
                Err(error) => {
                    return Err(error);
                },
            }
            collector.append("}\n\n");
            assert(collector@ =~= start + glsl_code(view, indentation as nat));
            Ok(())
        },
        _ => Err(Malformed),
    }
}

/// Appends the text of an expression. Fails, and appends nothing, on an expression
/// that cannot be written.
pub fn emit_expression<'a>(collector: &mut String, expression: &Expression<'a>) -> (result: Result<
    (),
    Malformed,
>)
    ensures
        match result {
            Ok(_) => glsl_emittable(expression.view()) && final(collector)@ == old(collector)@
                + glsl_expression(expression.view()),
            Err(_) => !glsl_emittable(expression.view()) && final(collector)@ == old(collector)@,
        },
{
    let mut text = String::new();
    match write_expression(&mut text, expression) {
        Ok(_) => {},
        Err(error) => {
            return Err(error);
        },
    }
    assert(text@ =~= glsl_expression(expression.view()));
    collector.append(text.as_str());
    Ok(())
}

/// Appends the text of a node; `indentation` is the depth at which it stands. Fails,
/// and appends nothing, on a node that cannot be written.
pub fn emit_code<'a>(collector: &mut String, node: &AstNode<'a>, indentation: usize) -> (result:
    Result<(), Malformed>)
    ensures
        match result {
            Ok(_) => glsl_code_emittable(node.view(), indentation as nat) && final(collector)@
                == old(collector)@ + glsl_code(node.view(), indentation as nat),
            Err(_) => !glsl_code_emittable(node.view(), indentation as nat) && final(collector)@
                == old(collector)@,
        },
{
    let mut text = String::new();
    match write_code(&mut text, node, indentation) {
        Ok(_) => {},
        Err(error) => {
            return Err(error);
        },
    }
    assert(text@ =~= glsl_code(node.view(), indentation as nat));
    collector.append(text.as_str());
    Ok(())
}

} // verus!
