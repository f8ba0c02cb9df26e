//! The emitter of the systems dialect: the text of a tree in Rust.

use vstd::prelude::*;
use vstd::string::StringExecFns;
use crate::ast::{
    parameters_view, AstNode, AstNodeView, ContentView, DataType, DataTypeView, Expression,
    ExpressionContent, ExpressionView, Parameter, ParameterView,
};
use crate::class::same_class;
use crate::compile::class_of;
use crate::definition::{class_definable, class_definition, emit_class_definition};
use crate::emit::{
    concatenated, decimal, emit_literal, has_function_name, is_named, joined, lemma_joined_push,
    operands, push_indentation, push_integer, push_number, push_snake_case, sign_of,
    spec_indentation, spec_integer_text, spec_literal, spec_snake_case, Malformed,
};
use crate::tree::{arguments_view, same_text, statements_view};

verus! {

/// The name of a type.
pub open spec fn rust_data_type(data_type: DataTypeView) -> Seq<char> {
    match data_type {
        DataTypeView::Integer => "isize"@,
        DataTypeView::SimdVector(size) => if size == 1 {
            "f32"@
        } else {
            "Simd32x"@ + decimal(size as nat)
        },
        DataTypeView::MultiVector(class) => class.class_name@,
    }
}

/// Whether an expression can be written: it holds no absent expression, its constants
/// have values and are no multivectors, and a choice of one lane names that lane.
pub open spec fn rust_emittable(expression: ExpressionView) -> bool
    decreases expression,
{
    match expression.content {
        ContentView::Empty => false,
        ContentView::Variable(_) => true,
        ContentView::InvokeClassMethod(_, _, arguments) => forall|i: int|
            0 <= i < arguments.len() ==> rust_emittable(#[trigger] arguments[i].1),
        ContentView::InvokeInstanceMethod(_, receiver, _, arguments) => rust_emittable(*receiver)
            && forall|i: int|
            0 <= i < arguments.len() ==> rust_emittable(#[trigger] arguments[i].1),
        ContentView::Conversion(_, _, inner) => rust_emittable(*inner),
        ContentView::Select(condition, then, otherwise) => rust_emittable(*condition)
            && rust_emittable(*then) && rust_emittable(*otherwise),
        ContentView::Access(inner, _) => rust_emittable(*inner),
        ContentView::Swizzle(inner, lanes) => rust_emittable(*inner) && (expression.size == 1
            && inner.size > 1 ==> lanes.len() > 0),
        ContentView::Gather(inner, pairs) => pairs.len() > 0 ==> rust_emittable(*inner),
        ContentView::Constant(data_type, values) => match data_type {
            DataTypeView::Integer => values.len() > 0,
            DataTypeView::SimdVector(_) => expression.size == 1 ==> values.len() > 0,
            DataTypeView::MultiVector(_) => false,
        },
        ContentView::SquareRoot(inner) => rust_emittable(*inner),
        ContentView::Add(a, b) => rust_emittable(*a) && rust_emittable(*b),
        ContentView::Subtract(a, b) => rust_emittable(*a) && rust_emittable(*b),
        ContentView::Multiply(a, b) => rust_emittable(*a) && rust_emittable(*b),
        ContentView::Divide(a, b) => rust_emittable(*a) && rust_emittable(*b),
        ContentView::LessThan(a, b) => rust_emittable(*a) && rust_emittable(*b),
        ContentView::Equal(a, b) => rust_emittable(*a) && rust_emittable(*b),
        ContentView::LogicAnd(a, b) => rust_emittable(*a) && rust_emittable(*b),
        ContentView::BitShiftRight(a, b) => rust_emittable(*a) && rust_emittable(*b),
    }
}

/// The name of the field of group `place` and a colon, where the arguments are the
/// fields of a constructor; else nothing.
pub open spec fn field_label(named: bool, place: nat) -> Seq<char> {
    if named {
        "g"@ + decimal(place) + ": "@
    } else {
        Seq::empty()
    }
}

/// The texts of the arguments of a call; those of a constructor are named as fields.
pub open spec fn argument_texts(arguments: Seq<(DataTypeView, ExpressionView)>, named: bool) -> Seq<
    Seq<char>,
>
    decreases arguments,
{
    Seq::new(
        arguments.len(),
        |i: int|
            if 0 <= i < arguments.len() {
                field_label(named, i as nat) + rust_expression(arguments[i].1)
            } else {
                Seq::empty()
            },
    )
}

/// The numbers of a list of lanes.
pub open spec fn lane_numbers(lanes: Seq<usize>) -> Seq<Seq<char>> {
    Seq::new(lanes.len(), |i: int| decimal(lanes[i] as nat))
}

/// The text of one lane of a gathered vector.
pub open spec fn gathered_lane(source: Seq<char>, width: usize, pair: (usize, usize)) -> Seq<char> {
    source + ".group"@ + decimal(pair.0 as nat) + "()"@ + if width > 1 {
        "["@ + decimal(pair.1 as nat) + "]"@
    } else {
        Seq::empty()
    }
}

/// A list of lanes as the argument of a conversion into a vector: in square brackets
/// unless there is one lane or none.
pub open spec fn lane_list(parts: Seq<Seq<char>>) -> Seq<char> {
    if parts.len() > 1 {
        "["@ + joined(parts, ", "@) + "]"@
    } else {
        joined(parts, ", "@)
    }
}

/// The literals of a list of whole numbers.
pub open spec fn literals(values: Seq<isize>) -> Seq<Seq<char>> {
    Seq::new(values.len(), |i: int| spec_literal(values[i] as int))
}

/// The text of an expression.
pub open spec fn rust_expression(expression: ExpressionView) -> Seq<char>
    decreases expression,
{
    match expression.content {
        ContentView::Empty => Seq::empty(),
        ContentView::Variable(name) => name,
        ContentView::InvokeClassMethod(class, method, arguments) => {
            if method == "Constructor"@ {
                class.class_name@ + " { groups: "@ + class.class_name@ + "Groups { "@ + joined(
                    argument_texts(arguments, true),
                    ", "@,
                ) + " } }"@
            } else {
                class.class_name@ + "::"@ + spec_snake_case(method) + "("@ + joined(
                    argument_texts(arguments, false),
                    ", "@,
                ) + ")"@
            }
        },
        ContentView::InvokeInstanceMethod(_, receiver, method, arguments) => {
            if method == "Constructor"@ {
                rust_expression(*receiver) + "."@ + joined(argument_texts(arguments, true), ", "@)
                    + " } }"@
            } else {
                rust_expression(*receiver) + "."@ + spec_snake_case(method) + "("@ + joined(
                    argument_texts(arguments, false),
                    ", "@,
                ) + ")"@
            }
        },
        ContentView::Conversion(_, _, inner) => rust_expression(*inner) + ".into()"@,
        ContentView::Select(condition, then, otherwise) => "if "@ + rust_expression(*condition)
            + " { "@ + rust_expression(*then) + " } else { "@ + rust_expression(*otherwise)
            + " }"@,
        ContentView::Access(inner, group) => rust_expression(*inner) + ".group"@ + decimal(
            group as nat,
        ) + "()"@,
        ContentView::Swizzle(inner, lanes) => {
            if expression.size == 1 {
                rust_expression(*inner) + if inner.size > 1 {
                    "["@ + decimal(lanes[0] as nat) + "]"@
                } else {
                    Seq::empty()
                }
            } else {
                "swizzle!("@ + rust_expression(*inner) + ", "@ + joined(lane_numbers(lanes), ", "@)
                    + ")"@
            }
        },
        ContentView::Gather(inner, pairs) => {
            let source = rust_expression(*inner);
            let parts = Seq::new(
                pairs.len(),
                |i: int| gathered_lane(source, inner.size, pairs[i]),
            );
            if expression.size > 1 {
                rust_data_type(DataTypeView::SimdVector(expression.size)) + "::from("@ + lane_list(
                    parts,
                ) + ")"@
            } else {
                lane_list(parts)
            }
        },
        ContentView::Constant(data_type, values) => match data_type {
            DataTypeView::Integer => spec_integer_text(values[0] as int),
            _ => if expression.size == 1 {
                spec_literal(values[0] as int)
            } else {
                rust_data_type(DataTypeView::SimdVector(expression.size)) + "::from("@ + lane_list(
                    literals(values),
                ) + ")"@
            },
        },
        ContentView::SquareRoot(inner) => rust_expression(*inner) + ".sqrt()"@,
        ContentView::Add(a, b) => rust_expression(*a) + " + "@ + rust_expression(*b),
        ContentView::Subtract(a, b) => rust_expression(*a) + " - "@ + rust_expression(*b),
        ContentView::Multiply(a, b) => rust_expression(*a) + " * "@ + rust_expression(*b),
        ContentView::Divide(a, b) => rust_expression(*a) + " / "@ + rust_expression(*b),
        ContentView::LessThan(a, b) => rust_expression(*a) + " < "@ + rust_expression(*b),
        ContentView::Equal(a, b) => rust_expression(*a) + " == "@ + rust_expression(*b),
        ContentView::LogicAnd(a, b) => rust_expression(*a) + " & "@ + rust_expression(*b),
        ContentView::BitShiftRight(a, b) => rust_expression(*a) + " >> "@ + rust_expression(*b),
    }
}

/// Appends the name of a type.
pub fn emit_data_type(collector: &mut String, data_type: &DataType)
    ensures
        final(collector)@ == old(collector)@ + rust_data_type(data_type.view()),
{
    match data_type {
        DataType::Integer => {
            collector.append("isize");
        },
        DataType::SimdVector(size) => {
            if *size == 1 {
                collector.append("f32");
            } else {
                collector.append("Simd32x");
                push_number(collector, *size);
                assert(collector@ =~= old(collector)@ + rust_data_type(data_type.view()));
            }
        },
        DataType::MultiVector(class) => {
            collector.append(class.class_name.as_str());
        },
    }
}

/// Appends the arguments of a call, with commas between them.
fn emit_arguments<'a>(
    collector: &mut String,
    arguments: &Vec<(DataType<'a>, Expression<'a>)>,
    named: bool,
) -> (result: Result<(), Malformed>)
    ensures
        match result {
            Ok(_) => {
                &&& forall|i: int|
                    0 <= i < arguments@.len() ==> rust_emittable(
                        #[trigger] arguments_view(arguments@)[i].1,
                    )
                &&& final(collector)@ == old(collector)@ + joined(
                    argument_texts(arguments_view(arguments@), named),
                    ", "@,
                )
            },
            Err(_) => exists|i: int|
                0 <= i < arguments@.len() && !rust_emittable(
                    #[trigger] arguments_view(arguments@)[i].1,
                ),
        },
    decreases arguments,
{
    let ghost values = arguments_view(arguments@);
    let ghost texts = argument_texts(values, named);
    let mut i: usize = 0;
    assert(collector@ =~= old(collector)@ + joined(texts.take(0), ", "@));
    while i < arguments.len()
        invariant
            i <= arguments.len(),
            values == arguments_view(arguments@),
            texts == argument_texts(values, named),
            forall|k: int| 0 <= k < i ==> rust_emittable(#[trigger] values[k].1),
            collector@ == old(collector)@ + joined(texts.take(i as int), ", "@),
        decreases arguments.len() - i,
    {
        let ghost before = collector@;
        if i > 0 {
            collector.append(", ");
        }
        if named {
            collector.append("g");
            push_number(collector, i);
            collector.append(": ");
        }
        assert(collector@ =~= before + (if i > 0 {
            ", "@
        } else {
            Seq::empty()
        }) + field_label(named, i as nat));
        match write_expression(collector, &arguments[i].1) {
            Ok(_) => {},
            Err(error) => {
                assert(!rust_emittable(values[i as int].1));
                return Err(error);
            },
        }
        proof {
            assert(rust_emittable(values[i as int].1));
            assert(texts.take(i as int + 1) =~= texts.take(i as int).push(texts[i as int]));
            lemma_joined_push(texts.take(i as int), ", "@, texts[i as int]);
            assert(collector@ =~= old(collector)@ + joined(texts.take(i as int + 1), ", "@));
        }
        i += 1;
    }
    assert(texts.take(arguments.len() as int) =~= texts);
    Ok(())
}

/// Appends the text of an expression, as far as it can be written.
fn write_expression<'a>(collector: &mut String, expression: &Expression<'a>) -> (result: Result<
    (),
    Malformed,
>)
    ensures
        match result {
            Ok(_) => rust_emittable(expression.view()) && final(collector)@ == old(collector)@
                + rust_expression(expression.view()),
            Err(_) => !rust_emittable(expression.view()),
        },
    decreases expression, 1int,
{
    let ghost start = collector@;
    let ghost view = expression.view();
    match &expression.content {
        ExpressionContent::Empty => {
            return Err(Malformed);
        },
        ExpressionContent::Variable(name) => {
            collector.append(name);
        },
        ExpressionContent::InvokeClassMethod(_, _, _) => {
            return emit_call(collector, expression);
        },
        ExpressionContent::InvokeInstanceMethod(_, _, _, _) => {
            return emit_call(collector, expression);
        },
        ExpressionContent::Conversion(_, _, inner) => {
            match write_expression(collector, inner) {
                Ok(_) => {},
                Err(error) => {
                    return Err(error);
                },
            }
            collector.append(".into()");
        },
        ExpressionContent::Select(condition, then, otherwise) => {
            collector.append("if ");
            match write_expression(collector, condition) {
                Ok(_) => {},
                Err(error) => {
                    return Err(error);
                },
            }
            collector.append(" { ");
            match write_expression(collector, then) {
                Ok(_) => {},
                Err(error) => {
                    return Err(error);
                },
            }
            collector.append(" } else { ");
            match write_expression(collector, otherwise) {
                Ok(_) => {},
                Err(error) => {
                    return Err(error);
                },
            }
            collector.append(" }");
            assert(collector@ =~= start + rust_expression(view));
        },
        ExpressionContent::Access(inner, group) => {
            match write_expression(collector, inner) {
                Ok(_) => {},
                Err(error) => {
                    return Err(error);
                },
            }
            collector.append(".group");
            push_number(collector, *group);
            collector.append("()");
            assert(collector@ =~= start + rust_expression(view));
        },
        ExpressionContent::Swizzle(_, _) => {
            return emit_swizzle(collector, expression);
        },
        ExpressionContent::Gather(_, _) => {
            return emit_gather(collector, expression);
        },
        ExpressionContent::Constant(_, _) => {
            return emit_constant(collector, expression);
        },
        ExpressionContent::SquareRoot(inner) => {
            match write_expression(collector, inner) {
                Ok(_) => {},
                Err(error) => {
                    return Err(error);
                },
            }
            collector.append(".sqrt()");
        },
        _ => {
            return emit_binary(collector, expression);
        },
    }
    Ok(())
}

/// Appends a call of a function, of a class or on a receiver.
fn emit_call<'a>(collector: &mut String, expression: &Expression<'a>) -> (result: Result<
    (),
    Malformed,
>)
    requires
        expression.content is InvokeClassMethod || expression.content is InvokeInstanceMethod,
    ensures
        match result {
            Ok(_) => rust_emittable(expression.view()) && final(collector)@ == old(collector)@
                + rust_expression(expression.view()),
            Err(_) => !rust_emittable(expression.view()),
        },
    decreases expression, 0int,
{
    let ghost start = collector@;
    let ghost view = expression.view();
    match &expression.content {
        ExpressionContent::InvokeClassMethod(class, method, arguments) => {
            proof {
                assert(view.content->InvokeClassMethod_2 =~= arguments_view(arguments@));
            }
            let named = same_text(method, "Constructor");
            collector.append(class.class_name.as_str());
            if named {
                collector.append(" { groups: ");
                collector.append(class.class_name.as_str());
                collector.append("Groups { ");
            } else {
                collector.append("::");
                push_snake_case(collector, method);
                collector.append("(");
            }
            match emit_arguments(collector, arguments, named) {
                Ok(_) => {},
                Err(error) => {
                    return Err(error);
                },
            }
            if named {
                collector.append(" } }");
            } else {
                collector.append(")");
            }
            assert(collector@ =~= start + rust_expression(view));
            Ok(())
        },
        ExpressionContent::InvokeInstanceMethod(_, receiver, method, arguments) => {
            proof {
                assert(view.content->InvokeInstanceMethod_3 =~= arguments_view(arguments@));
            }
            let named = same_text(method, "Constructor");
            match write_expression(collector, receiver) {
                Ok(_) => {},
                Err(error) => {
                    return Err(error);
                },
            }
            collector.append(".");
            if !named {
                push_snake_case(collector, method);
                collector.append("(");
            }
            match emit_arguments(collector, arguments, named) {
                Ok(_) => {},
                Err(error) => {
                    return Err(error);
                },
            }
            if named {
                collector.append(" } }");
            } else {
                collector.append(")");
            }
            assert(collector@ =~= start + rust_expression(view));
            Ok(())
        },
        _ => Err(Malformed),
    }
}

/// Appends a list of numbers, with commas between them.
fn emit_lane_numbers(collector: &mut String, lanes: &Vec<usize>)
    ensures
        final(collector)@ == old(collector)@ + joined(lane_numbers(lanes@), ", "@),
{
    let ghost numbers = lane_numbers(lanes@);
    let mut i: usize = 0;
    assert(collector@ =~= old(collector)@ + joined(numbers.take(0), ", "@));
    while i < lanes.len()
        invariant
            i <= lanes.len(),
            numbers == lane_numbers(lanes@),
            collector@ == old(collector)@ + joined(numbers.take(i as int), ", "@),
        decreases lanes.len() - i,
    {
        if i > 0 {
            collector.append(", ");
        }
        push_number(collector, lanes[i]);
        proof {
            assert(numbers.take(i as int + 1) =~= numbers.take(i as int).push(numbers[i as int]));
            lemma_joined_push(numbers.take(i as int), ", "@, numbers[i as int]);
            assert(collector@ =~= old(collector)@ + joined(numbers.take(i as int + 1), ", "@));
        }
        i += 1;
    }
    assert(numbers.take(lanes.len() as int) =~= numbers);
}

/// Appends a choice of lanes.
fn emit_swizzle<'a>(collector: &mut String, expression: &Expression<'a>) -> (result: Result<
    (),
    Malformed,
>)
    requires
        expression.content is Swizzle,
    ensures
        match result {
            Ok(_) => rust_emittable(expression.view()) && final(collector)@ == old(collector)@
                + rust_expression(expression.view()),
            Err(_) => !rust_emittable(expression.view()),
        },
    decreases expression, 0int,
{
    let ghost start = collector@;
    let ghost view = expression.view();
    match &expression.content {
        ExpressionContent::Swizzle(inner, lanes) => {
            if expression.size == 1 {
                match write_expression(collector, inner) {
                    Ok(_) => {},
                    Err(error) => {
                        return Err(error);
                    },
                }
                if inner.size > 1 {
                    if lanes.len() == 0 {
                        return Err(Malformed);
                    }
                    collector.append("[");
                    push_number(collector, lanes[0]);
                    collector.append("]");
                }
                assert(collector@ =~= start + rust_expression(view));
            } else {
                collector.append("swizzle!(");
                match write_expression(collector, inner) {
                    Ok(_) => {},
                    Err(error) => {
                        return Err(error);
                    },
                }
                collector.append(", ");
                emit_lane_numbers(collector, lanes);
                collector.append(")");
                assert(collector@ =~= start + rust_expression(view));
            }
            Ok(())
        },
        _ => Err(Malformed),
    }
}

/// Appends a vector whose lanes are picked from the groups of an expression.
fn emit_gather<'a>(collector: &mut String, expression: &Expression<'a>) -> (result: Result<
    (),
    Malformed,
>)
    requires
        expression.content is Gather,
    ensures
        match result {
            Ok(_) => rust_emittable(expression.view()) && final(collector)@ == old(collector)@
                + rust_expression(expression.view()),
            Err(_) => !rust_emittable(expression.view()),
        },
    decreases expression, 0int,
{
    let ghost start = collector@;
    let ghost view = expression.view();
    match &expression.content {
        ExpressionContent::Gather(inner, pairs) => {
            if expression.size > 1 {
                emit_data_type(collector, &DataType::SimdVector(expression.size));
                collector.append("::from(");
            }
            if pairs.len() > 1 {
                collector.append("[");
            }
            let ghost opened = collector@;
            let ghost source = rust_expression(inner.view());
            let ghost parts = Seq::new(
                pairs@.len(),
                |i: int| gathered_lane(source, inner.size, pairs@[i]),
            );
            let mut i: usize = 0;
            assert(collector@ =~= opened + joined(parts.take(0), ", "@));
            while i < pairs.len()
                invariant
                    i <= pairs.len(),
                    source == rust_expression(inner.view()),
                    parts == Seq::new(
                        pairs@.len(),
                        |i: int| gathered_lane(source, inner.size, pairs@[i]),
                    ),
                    i > 0 ==> rust_emittable(inner.view()),
                    collector@ == opened + joined(parts.take(i as int), ", "@),
                    view == expression.view(),
                    view.content == ContentView::Gather(Box::new(inner.view()), pairs@),
                    expression.content == ExpressionContent::Gather(*inner, *pairs),
                decreases pairs.len() - i,
            {
                let ghost before = collector@;
                if i > 0 {
                    collector.append(", ");
                }
                match write_expression(collector, inner) {
                    Ok(_) => {},
                    Err(error) => {
                        return Err(error);
                    },
                }
                collector.append(".group");
                push_number(collector, pairs[i].0);
                collector.append("()");
                if inner.size > 1 {
                    collector.append("[");
                    push_number(collector, pairs[i].1);
                    collector.append("]");
                }
                proof {
                    assert(parts.take(i as int + 1) =~= parts.take(i as int).push(parts[i as int]));
                    lemma_joined_push(parts.take(i as int), ", "@, parts[i as int]);
                    assert(collector@ =~= before + (if i > 0 {
                        ", "@
                    } else {
                        Seq::empty()
                    }) + parts[i as int]);
                    assert(collector@ =~= opened + joined(parts.take(i as int + 1), ", "@));
                }
                i += 1;
            }
            assert(parts.take(pairs.len() as int) =~= parts);
            if pairs.len() > 1 {
                collector.append("]");
            }
            if expression.size > 1 {
                collector.append(")");
            }
            assert(collector@ =~= start + rust_expression(view));
            Ok(())
        },
        _ => Err(Malformed),
    }
}

/// Appends a constant.
fn emit_constant<'a>(collector: &mut String, expression: &Expression<'a>) -> (result: Result<
    (),
    Malformed,
>)
    requires
        expression.content is Constant,
    ensures
        match result {
            Ok(_) => rust_emittable(expression.view()) && final(collector)@ == old(collector)@
                + rust_expression(expression.view()),
            Err(_) => !rust_emittable(expression.view()),
        },
{
    let ghost start = collector@;
    let ghost view = expression.view();
    match &expression.content {
        ExpressionContent::Constant(data_type, values) => {
            match data_type {
                DataType::Integer => {
                    if values.len() == 0 {
                        return Err(Malformed);
                    }
                    push_integer(collector, values[0]);
                    Ok(())
                },
                DataType::SimdVector(_) => {
                    if expression.size == 1 {
                        if values.len() == 0 {
                            return Err(Malformed);
                        }
                        collector.append(emit_literal(values[0]).as_str());
                        return Ok(());
                    }
                    emit_data_type(collector, &DataType::SimdVector(expression.size));
                    collector.append("::from(");
                    if values.len() > 1 {
                        collector.append("[");
                    }
                    let ghost opened = collector@;
                    let ghost parts = literals(values@);
                    let mut i: usize = 0;
                    assert(collector@ =~= opened + joined(parts.take(0), ", "@));
                    while i < values.len()
                        invariant
                            i <= values.len(),
                            parts == literals(values@),
                            collector@ == opened + joined(parts.take(i as int), ", "@),
                        decreases values.len() - i,
                    {
                        if i > 0 {
                            collector.append(", ");
                        }
                        collector.append(emit_literal(values[i]).as_str());
                        proof {
                            assert(parts.take(i as int + 1) =~= parts.take(i as int).push(
                                parts[i as int],
                            ));
                            lemma_joined_push(parts.take(i as int), ", "@, parts[i as int]);
                            assert(collector@ =~= opened + joined(parts.take(i as int + 1), ", "@));
                        }
                        i += 1;
                    }
                    assert(parts.take(values.len() as int) =~= parts);
                    if values.len() > 1 {
                        collector.append("]");
                    }
                    collector.append(")");
                    assert(collector@ =~= start + rust_expression(view));
                    Ok(())
                },
                DataType::MultiVector(_) => Err(Malformed),
            }
        },
        _ => Err(Malformed),
    }
}

/// Appends the two operands of a binary operation with its sign between them.
fn emit_binary<'a>(collector: &mut String, expression: &Expression<'a>) -> (result: Result<
    (),
    Malformed,
>)
    requires
        operands(expression.view().content) is Some,
    ensures
        match result {
            Ok(_) => rust_emittable(expression.view()) && final(collector)@ == old(collector)@
                + rust_expression(expression.view()),
            Err(_) => !rust_emittable(expression.view()),
        },
    decreases expression, 0int,
{
    let ghost start = collector@;
    let ghost view = expression.view();
    let sign = sign_of(&expression.content);
    match &expression.content {
        ExpressionContent::Add(a, b)
        | ExpressionContent::Subtract(a, b)
        | ExpressionContent::Multiply(a, b)
        | ExpressionContent::Divide(a, b)
        | ExpressionContent::LessThan(a, b)
        | ExpressionContent::Equal(a, b)
        | ExpressionContent::LogicAnd(a, b)
        | ExpressionContent::BitShiftRight(a, b) => {
            match write_expression(collector, a) {
                Ok(_) => {},
                Err(error) => {
                    return Err(error);
                },
            }
            collector.append(sign);
            match write_expression(collector, b) {
                Ok(_) => {},
                Err(error) => {
                    return Err(error);
                },
            }
            assert(collector@ =~= start + rust_expression(view));
            Ok(())
        },
        _ => Err(Malformed),
    }
}

/// What a function of a trait is declared for: the trait, another operand in angle
/// brackets where the trait has one, and the class that receives the call.
pub open spec fn implementation_header(result: ParameterView, parameters: Seq<ParameterView>) -> Seq<
    char,
> {
    let generic = if parameters.len() == 1 && result.name == "Into"@ {
        "<"@ + class_of(result.data_type).class_name@ + ">"@
    } else if parameters.len() == 2 && parameters[1].data_type is MultiVector {
        "<"@ + class_of(parameters[1].data_type).class_name@ + ">"@
    } else {
        Seq::empty()
    };
    let receiver = if parameters.len() == 0 {
        class_of(result.data_type).class_name@
    } else {
        class_of(parameters[0].data_type).class_name@
    };
    "impl "@ + result.name + generic + " for "@ + receiver
}

/// The line that names the type of the result, where the trait asks for one.
pub open spec fn output_line(result: ParameterView, parameters: Seq<ParameterView>, depth: nat) -> Seq<
    char,
> {
    if parameters.len() > 0 && result.name != "Into"@ {
        spec_indentation(depth + 1) + "type Output = "@ + class_of(result.data_type).class_name@
            + ";\n\n"@
    } else {
        Seq::empty()
    }
}

/// The parameters and the result of a function.
pub open spec fn signature(result: ParameterView, parameters: Seq<ParameterView>) -> Seq<char> {
    if parameters.len() == 0 {
        "() -> Self"@
    } else if parameters.len() == 1 {
        "("@ + parameters[0].name + ") -> "@ + rust_data_type(result.data_type)
    } else {
        "("@ + parameters[0].name + ", "@ + parameters[1].name + ": "@ + rust_data_type(
            parameters[1].data_type,
        ) + ") -> "@ + rust_data_type(result.data_type)
    }
}

/// Whether the trait is one of the four of arithmetic, each of which has a trait that
/// assigns beside it.
pub open spec fn is_arithmetic(name: Seq<char>) -> bool {
    name == "Add"@ || name == "Sub"@ || name == "Mul"@ || name == "Div"@
}

/// Whether the assigning trait of an operation can be written or left out: the result
/// and the receiver are multivectors, and where they are of one class, the other
/// operand is a multivector too.
pub open spec fn assignable(result: ParameterView, parameters: Seq<ParameterView>) -> bool {
    &&& result.data_type is MultiVector
    &&& parameters.len() >= 1
    &&& parameters[0].data_type is MultiVector
    &&& same_class(class_of(result.data_type), class_of(parameters[0].data_type))
        ==> parameters.len() >= 2 && parameters[1].data_type is MultiVector
}

/// The assigning trait of an operation: written where the result is of the class of
/// the receiver, else nothing.
pub open spec fn assign_trait(result: ParameterView, parameters: Seq<ParameterView>) -> Seq<char> {
    if same_class(class_of(result.data_type), class_of(parameters[0].data_type)) {
        "impl "@ + result.name + "Assign<"@ + class_of(parameters[1].data_type).class_name@
            + "> for "@ + class_of(parameters[0].data_type).class_name@ + " {\n    fn "@
            + spec_snake_case(result.name) + "_assign(&mut self, other: "@ + class_of(
            parameters[1].data_type,
        ).class_name@ + ") {\n        *self = (*self)."@ + spec_snake_case(result.name)
            + "(other);\n    }\n}\n\n"@
    } else {
        Seq::empty()
    }
}

/// Whether a node can be written at the given depth: its expressions can be written,
/// its classes can be defined, its functions can be declared, and the depth of what it
/// holds is a machine number.
pub open spec fn rust_code_emittable(node: AstNodeView, depth: nat) -> bool
    decreases node,
{
    match node {
        AstNodeView::Empty => true,
        AstNodeView::Preamble => true,
        AstNodeView::ClassDefinition { class } => class_definable(class, depth),
        AstNodeView::ReturnStatement { expression } => rust_emittable(expression),
        AstNodeView::VariableAssignment { name, data_type, expression } => rust_emittable(
            expression,
        ),
        AstNodeView::IfThenBlock { condition, body } => rust_emittable(condition) && depth
            < usize::MAX && forall|i: int|
            0 <= i < body.len() ==> rust_code_emittable(#[trigger] body[i], depth + 1),
        AstNodeView::WhileLoopBlock { condition, body } => rust_emittable(condition) && depth
            < usize::MAX && forall|i: int|
            0 <= i < body.len() ==> rust_code_emittable(#[trigger] body[i], depth + 1),
        AstNodeView::TraitImplementation { result, parameters, body } => {
            &&& has_function_name(result, parameters)
            &&& depth + 2 <= usize::MAX
            &&& forall|i: int|
                0 <= i < body.len() ==> rust_code_emittable(#[trigger] body[i], depth + 2)
            &&& is_arithmetic(result.name) ==> assignable(result, parameters)
        },
    }
}

/// The texts of the statements of a block, each after its indentation.
pub open spec fn statement_texts(statements: Seq<AstNodeView>, depth: nat) -> Seq<Seq<char>>
    decreases statements,
{
    Seq::new(
        statements.len(),
        |i: int|
            if 0 <= i < statements.len() {
                spec_indentation(depth) + rust_code(statements[i], depth)
            } else {
                Seq::empty()
            },
    )
}

/// The texts of the statements of a function, each after its indentation. A return
/// that stands last is the expression alone.
pub open spec fn function_texts(statements: Seq<AstNodeView>, depth: nat) -> Seq<Seq<char>>
    decreases statements,
{
    Seq::new(
        statements.len(),
        |i: int|
            if 0 <= i < statements.len() {
                spec_indentation(depth) + if i + 1 == statements.len()
                    && statements[i] is ReturnStatement {
                    rust_expression(statements[i]->ReturnStatement_expression) + "\n"@
                } else {
                    rust_code(statements[i], depth)
                }
            } else {
                Seq::empty()
            },
    )
}

/// What stands before the statements of the implementation of a trait: what it is
/// declared for, the type of the result, and the function with its parameters.
pub open spec fn function_head(result: ParameterView, parameters: Seq<ParameterView>, depth: nat) -> Seq<
    char,
> {
    implementation_header(result, parameters) + " {\n"@ + output_line(result, parameters, depth)
        + spec_indentation(depth + 1) + "fn "@ + spec_snake_case(result.name) + signature(
        result,
        parameters,
    ) + " {\n"@
}

/// What stands behind the statements of the implementation of a trait: the closing
/// brackets and, for a trait of arithmetic, the trait that assigns.
pub open spec fn function_tail(result: ParameterView, parameters: Seq<ParameterView>, depth: nat) -> Seq<
    char,
> {
    spec_indentation(depth + 1) + "}\n}\n\n"@ + if is_arithmetic(result.name) {
        assign_trait(result, parameters)
    } else {
        Seq::empty()
    }
}

/// What every generated file begins with.
pub open spec fn preamble() -> Seq<char> {
    "#![allow(clippy::assign_op_pattern)]\n"@
        + "use crate::{simd::*, *};\nuse std::ops::{Add, AddAssign, Div, DivAssign, Mul, MulAssign, Neg, Sub, SubAssign};\n\n"@
}

/// The text of a node at the given depth.
pub open spec fn rust_code(node: AstNodeView, depth: nat) -> Seq<char>
    decreases node,
{
    match node {
        AstNodeView::Empty => Seq::empty(),
        AstNodeView::Preamble => preamble(),
        AstNodeView::ClassDefinition { class } => class_definition(class, depth),
        AstNodeView::ReturnStatement { expression } => "return "@ + rust_expression(expression)
            + ";\n"@,
        AstNodeView::VariableAssignment { name, data_type, expression } => (match data_type {
            Some(data_type) => "let mut "@ + name + ": "@ + rust_data_type(data_type),
            None => name,
        }) + " = "@ + rust_expression(expression) + ";\n"@,
        AstNodeView::IfThenBlock { condition, body } => "if "@ + rust_expression(condition)
            + " {\n"@ + concatenated(statement_texts(body, depth + 1)) + spec_indentation(depth)
            + "}\n"@,
        AstNodeView::WhileLoopBlock { condition, body } => "while "@ + rust_expression(condition)
            + " {\n"@ + concatenated(statement_texts(body, depth + 1)) + spec_indentation(depth)
            + "}\n"@,
        AstNodeView::TraitImplementation { result, parameters, body } => function_head(
            result,
            parameters,
            depth,
        ) + concatenated(function_texts(body, depth + 2)) + function_tail(
            result,
            parameters,
            depth,
        ),
    }
}

/// Appends the assigning trait of an operation where the result is of the class of the
/// receiver. Fails, and appends nothing, where a class that it has to name is missing.
pub fn emit_assign_trait(collector: &mut String, result: &Parameter, parameters: &Vec<Parameter>) -> (outcome:
    Result<(), Malformed>)
    ensures
        match outcome {
            Ok(_) => assignable(result.view(), parameters_view(parameters@)) && final(collector)@
                == old(collector)@ + assign_trait(result.view(), parameters_view(parameters@)),
            Err(_) => !assignable(result.view(), parameters_view(parameters@)) && final(collector)@ == old(collector)@,
        },
{
    let ghost views = parameters_view(parameters@);
    proof {
        if parameters@.len() > 0 {
            assert(views[0] == parameters@[0].view());
        }
        if parameters@.len() > 1 {
            assert(views[1] == parameters@[1].view());
        }
    }
    if parameters.len() == 0 {
        return Err(Malformed);
    }
    let class = match result.data_type {
        DataType::MultiVector(class) => class,
        _ => {
            return Err(Malformed);
        },
    };
    let receiver = match parameters[0].data_type {
        DataType::MultiVector(class) => class,
        _ => {
            return Err(Malformed);
        },
    };
    if !class.same_as(receiver) {
        assert(collector@ =~= old(collector)@ + assign_trait(result.view(), views));
        return Ok(());
    }
    if parameters.len() < 2 {
        return Err(Malformed);
    }
    let other = match parameters[1].data_type {
        DataType::MultiVector(class) => class,
        _ => {
            return Err(Malformed);
        },
    };
    collector.append("impl ");
    collector.append(result.name);
    collector.append("Assign<");
    collector.append(other.class_name.as_str());
    collector.append("> for ");
    collector.append(receiver.class_name.as_str());
    collector.append(" {\n    fn ");
    push_snake_case(collector, result.name);
    collector.append("_assign(&mut self, other: ");
    collector.append(other.class_name.as_str());
    collector.append(") {\n        *self = (*self).");
    push_snake_case(collector, result.name);
    collector.append("(other);\n    }\n}\n\n");
    assert(collector@ =~= old(collector)@ + assign_trait(result.view(), views));
    Ok(())
}

/// Appends what a function of a trait is declared for.
fn emit_implementation_header(collector: &mut String, result: &Parameter, parameters: &Vec<Parameter>)
    requires
        has_function_name(result.view(), parameters_view(parameters@)),
    ensures
        final(collector)@ == old(collector)@ + implementation_header(
            result.view(),
            parameters_view(parameters@),
        ),
{
    let ghost views = parameters_view(parameters@);
    proof {
        if parameters@.len() > 0 {
            assert(views[0] == parameters@[0].view());
        }
        if parameters@.len() > 1 {
            assert(views[1] == parameters@[1].view());
        }
    }
    collector.append("impl ");
    collector.append(result.name);
    let ghost named = collector@;
    if parameters.len() == 1 && same_text(result.name, "Into") {
        collector.append("<");
        collector.append(result.multi_vector_class().class_name.as_str());
        collector.append(">");
    } else if parameters.len() == 2 {
        match parameters[1].data_type {
            DataType::MultiVector(class) => {
                collector.append("<");
                collector.append(class.class_name.as_str());
                collector.append(">");
            },
            _ => {},
        }
    }
    collector.append(" for ");
    if parameters.len() == 0 {
        collector.append(result.multi_vector_class().class_name.as_str());
    } else {
        collector.append(parameters[0].multi_vector_class().class_name.as_str());
    }
    assert(collector@ =~= old(collector)@ + implementation_header(result.view(), views));
}

/// Appends the parameters and the result of a function.
fn emit_signature(collector: &mut String, result: &Parameter, parameters: &Vec<Parameter>)
    requires
        parameters@.len() <= 2,
    ensures
        final(collector)@ == old(collector)@ + signature(
            result.view(),
            parameters_view(parameters@),
        ),
{
    let ghost views = parameters_view(parameters@);
    proof {
        if parameters@.len() > 0 {
            assert(views[0] == parameters@[0].view());
        }
        if parameters@.len() > 1 {
            assert(views[1] == parameters@[1].view());
        }
    }
    if parameters.len() == 0 {
        collector.append("() -> Self");
    } else if parameters.len() == 1 {
        collector.append("(");
        collector.append(parameters[0].name);
        collector.append(") -> ");
        emit_data_type(collector, &result.data_type);
        assert(collector@ =~= old(collector)@ + signature(result.view(), views));
    } else {
        collector.append("(");
        collector.append(parameters[0].name);
        collector.append(", ");
        collector.append(parameters[1].name);
        collector.append(": ");
        emit_data_type(collector, &parameters[1].data_type);
        collector.append(") -> ");
        emit_data_type(collector, &result.data_type);
        assert(collector@ =~= old(collector)@ + signature(result.view(), views));
    }
}

/// Whether the trait is one of the four of arithmetic.
fn names_arithmetic(name: &str) -> (arithmetic: bool)
    ensures
        arithmetic == is_arithmetic(name@),
{
    same_text(name, "Add") || same_text(name, "Sub") || same_text(name, "Mul") || same_text(
        name,
        "Div",
    )
}

/// Appends the statements of a block, each after its indentation.
fn emit_statements<'a>(collector: &mut String, body: &Vec<AstNode<'a>>, depth: usize) -> (result:
    Result<(), Malformed>)
    ensures
        match result {
            Ok(_) => {
                &&& forall|i: int|
                    0 <= i < body@.len() ==> rust_code_emittable(
                        #[trigger] statements_view(body@)[i],
                        depth as nat,
                    )
                &&& final(collector)@ == old(collector)@ + concatenated(
                    statement_texts(statements_view(body@), depth as nat),
                )
            },
            Err(_) => exists|i: int|
                0 <= i < body@.len() && !rust_code_emittable(
                    #[trigger] statements_view(body@)[i],
                    depth as nat,
                ),
        },
    decreases body, 0int,
{
    let ghost views = statements_view(body@);
    let ghost texts = statement_texts(views, depth as nat);
    let mut i: usize = 0;
    assert(collector@ =~= old(collector)@ + concatenated(texts.take(0)));
    while i < body.len()
        invariant
            i <= body.len(),
            views == statements_view(body@),
            texts == statement_texts(views, depth as nat),
            forall|k: int| 0 <= k < i ==> rust_code_emittable(#[trigger] views[k], depth as nat),
            collector@ == old(collector)@ + concatenated(texts.take(i as int)),
        decreases body.len() - i,
    {
        push_indentation(collector, depth);
        match write_code(collector, &body[i], depth) {
            Ok(_) => {},
            Err(error) => {
                assert(!rust_code_emittable(views[i as int], depth as nat));
                return Err(error);
            },
        }
        proof {
            assert(rust_code_emittable(views[i as int], depth as nat));
            assert(texts.take(i as int + 1) =~= texts.take(i as int).push(texts[i as int]));
            lemma_joined_push(texts.take(i as int), Seq::empty(), texts[i as int]);
            assert(collector@ =~= old(collector)@ + concatenated(texts.take(i as int + 1)));
        }
        i += 1;
    }
    assert(texts.take(body.len() as int) =~= texts);
    Ok(())
}

/// Appends the statements of a function, each after its indentation; of a return that
/// stands last, the expression alone.
fn emit_function_body<'a>(collector: &mut String, body: &Vec<AstNode<'a>>, depth: usize) -> (result:
    Result<(), Malformed>)
    ensures
        match result {
            Ok(_) => {
                &&& forall|i: int|
                    0 <= i < body@.len() ==> rust_code_emittable(
                        #[trigger] statements_view(body@)[i],
                        depth as nat,
                    )
                &&& final(collector)@ == old(collector)@ + concatenated(
                    function_texts(statements_view(body@), depth as nat),
                )
            },
            Err(_) => exists|i: int|
                0 <= i < body@.len() && !rust_code_emittable(
                    #[trigger] statements_view(body@)[i],
                    depth as nat,
                ),
        },
    decreases body, 0int,
{
    let ghost views = statements_view(body@);
    let ghost texts = function_texts(views, depth as nat);
    let mut i: usize = 0;
    assert(collector@ =~= old(collector)@ + concatenated(texts.take(0)));
    while i < body.len()
        invariant
            i <= body.len(),
            views == statements_view(body@),
            texts == function_texts(views, depth as nat),
            forall|k: int| 0 <= k < i ==> rust_code_emittable(#[trigger] views[k], depth as nat),
            collector@ == old(collector)@ + concatenated(texts.take(i as int)),
        decreases body.len() - i,
    {
        let ghost before = collector@;
        push_indentation(collector, depth);
        let last = i + 1 == body.len();
        match &body[i] {
            AstNode::ReturnStatement { expression } if last => {
                match write_expression(collector, expression) {
                    Ok(_) => {},
                    Err(error) => {
                        assert(!rust_code_emittable(views[i as int], depth as nat));
                        return Err(error);
                    },
                }
                collector.append("\n");
            },
            statement => {
                match write_code(collector, statement, depth) {
                    Ok(_) => {},
                    Err(error) => {
                        assert(!rust_code_emittable(views[i as int], depth as nat));
                        return Err(error);
                    },
                }
            },
        }
        proof {
            assert(rust_code_emittable(views[i as int], depth as nat));
            assert(collector@ =~= before + texts[i as int]);
            assert(texts.take(i as int + 1) =~= texts.take(i as int).push(texts[i as int]));
            lemma_joined_push(texts.take(i as int), Seq::empty(), texts[i as int]);
            assert(collector@ =~= old(collector)@ + concatenated(texts.take(i as int + 1)));
        }
        i += 1;
    }
    assert(texts.take(body.len() as int) =~= texts);
    Ok(())
}

/// Appends the text of a node at the given depth, as far as it can be written.
fn write_code<'a>(collector: &mut String, node: &AstNode<'a>, indentation: usize) -> (result:
    Result<(), Malformed>)
    ensures
        match result {
            Ok(_) => rust_code_emittable(node.view(), indentation as nat) && final(collector)@
                == old(collector)@ + rust_code(node.view(), indentation as nat),
            Err(_) => !rust_code_emittable(node.view(), indentation as nat),
        },
    decreases node, 1int,
{
    let ghost start = collector@;
    let ghost view = node.view();
    match node {
        AstNode::Empty => {
            assert(collector@ =~= start + rust_code(view, indentation as nat));
        },
        AstNode::Preamble => {
            collector.append("#![allow(clippy::assign_op_pattern)]\n");
            collector.append(
                "use crate::{simd::*, *};\nuse std::ops::{Add, AddAssign, Div, DivAssign, Mul, MulAssign, Neg, Sub, SubAssign};\n\n",
            );
            assert(collector@ =~= start + rust_code(view, indentation as nat));
        },
        AstNode::ClassDefinition { class } => {
            return emit_class_definition(collector, class, indentation);
        },
        AstNode::ReturnStatement { expression } => {
            collector.append("return ");
            match write_expression(collector, expression) {
                Ok(_) => {},
                Err(error) => {
                    return Err(error);
                },
            }
            collector.append(";\n");
            assert(collector@ =~= start + rust_code(view, indentation as nat));
        },
        AstNode::VariableAssignment { name, data_type, expression } => {
            match data_type {
                Some(data_type) => {
                    collector.append("let mut ");
                    collector.append(name);
                    collector.append(": ");
                    emit_data_type(collector, data_type);
                },
                None => {
                    collector.append(name);
                },
            }
            collector.append(" = ");
            match write_expression(collector, expression) {
                Ok(_) => {},
                Err(error) => {
                    return Err(error);
                },
            }
            collector.append(";\n");
            assert(collector@ =~= start + rust_code(view, indentation as nat));
        },
        AstNode::IfThenBlock { .. } => {
            return emit_block(collector, node, indentation);
        },
        AstNode::WhileLoopBlock { .. } => {
            return emit_block(collector, node, indentation);
        },
        AstNode::TraitImplementation { .. } => {
            return emit_function(collector, node, indentation);
        },
    }
    Ok(())
}

/// Whether the statements of a block can be written one level below the given depth.
pub open spec fn block_emittable(body: Seq<AstNodeView>, depth: nat) -> bool {
    depth < usize::MAX && forall|i: int|
        0 <= i < body.len() ==> rust_code_emittable(#[trigger] body[i], depth + 1)
}

/// The statements of a block in braces, one level below the given depth.
pub open spec fn block_text(body: Seq<AstNodeView>, depth: nat) -> Seq<char> {
    " {\n"@ + concatenated(statement_texts(body, depth + 1)) + spec_indentation(depth) + "}\n"@
}

/// Appends the statements of a block in braces.
fn emit_braces<'a>(collector: &mut String, body: &Vec<AstNode<'a>>, depth: usize) -> (result:
    Result<(), Malformed>)
    ensures
        match result {
            Ok(_) => block_emittable(statements_view(body@), depth as nat) && final(collector)@
                == old(collector)@ + block_text(statements_view(body@), depth as nat),
            Err(_) => !block_emittable(statements_view(body@), depth as nat),
        },
    decreases body, 1int,
{
    collector.append(" {\n");
    if depth == usize::MAX {
        return Err(Malformed);
    }
    match emit_statements(collector, body, depth + 1) {
        Ok(_) => {},
        Err(error) => {
            return Err(error);
        },
    }
    push_indentation(collector, depth);
    collector.append("}\n");
    assert(collector@ =~= old(collector)@ + block_text(statements_view(body@), depth as nat));
    Ok(())
}

/// Appends a conditional block or a loop.
fn emit_block<'a>(collector: &mut String, node: &AstNode<'a>, indentation: usize) -> (result:
    Result<(), Malformed>)
    requires
        node is IfThenBlock || node is WhileLoopBlock,
    ensures
        match result {
            Ok(_) => rust_code_emittable(node.view(), indentation as nat) && final(collector)@
                == old(collector)@ + rust_code(node.view(), indentation as nat),
            Err(_) => !rust_code_emittable(node.view(), indentation as nat),
        },
    decreases node, 0int,
{
    let ghost start = collector@;
    let ghost view = node.view();
    match node {
        AstNode::IfThenBlock { condition, body } => {
            proof {
                assert(view->IfThenBlock_body =~= statements_view(body@));
            }
            collector.append("if ");
            match write_expression(collector, condition) {
                Ok(_) => {},
                Err(error) => {
                    return Err(error);
                },
            }
            match emit_braces(collector, body, indentation) {
                Ok(_) => {},
                Err(error) => {
                    return Err(error);
                },
            }
            assert(collector@ =~= start + rust_code(view, indentation as nat));
            Ok(())
        },
        AstNode::WhileLoopBlock { condition, body } => {
            proof {
                assert(view->WhileLoopBlock_body =~= statements_view(body@));
            }
            collector.append("while ");
            match write_expression(collector, condition) {
                Ok(_) => {},
                Err(error) => {
                    return Err(error);
                },
            }
            match emit_braces(collector, body, indentation) {
                Ok(_) => {},
                Err(error) => {
                    return Err(error);
                },
            }
            assert(collector@ =~= start + rust_code(view, indentation as nat));
            Ok(())
        },
        _ => Err(Malformed),
    }
}

/// Appends what stands before the statements of the implementation of a trait.
fn emit_function_head(
    collector: &mut String,
    result: &Parameter,
    parameters: &Vec<Parameter>,
    depth: usize,
)
    requires
        has_function_name(result.view(), parameters_view(parameters@)),
        depth + 2 <= usize::MAX,
    ensures
        final(collector)@ == old(collector)@ + function_head(
            result.view(),
            parameters_view(parameters@),
            depth as nat,
        ),
{
    let ghost views = parameters_view(parameters@);
    emit_implementation_header(collector, result, parameters);
    collector.append(" {\n");
    let ghost opened = collector@;
    if parameters.len() > 0 && !same_text(result.name, "Into") {
        push_indentation(collector, depth + 1);
        collector.append("type Output = ");
        collector.append(result.multi_vector_class().class_name.as_str());
        collector.append(";\n\n");
    }
    assert(collector@ =~= opened + output_line(result.view(), views, depth as nat));
    let ghost typed = collector@;
    push_indentation(collector, depth + 1);
    collector.append("fn ");
    push_snake_case(collector, result.name);
    emit_signature(collector, result, parameters);
    collector.append(" {\n");
    assert(collector@ =~= old(collector)@ + function_head(result.view(), views, depth as nat));
}

/// Appends what stands behind the statements of the implementation of a trait. Fails
/// where the trait that assigns cannot be written.
fn emit_function_tail(
    collector: &mut String,
    result: &Parameter,
    parameters: &Vec<Parameter>,
    depth: usize,
) -> (outcome: Result<(), Malformed>)
    requires
        depth + 2 <= usize::MAX,
    ensures
        match outcome {
            Ok(_) => (is_arithmetic(result.name@) ==> assignable(
                result.view(),
                parameters_view(parameters@),
            )) && final(collector)@ == old(collector)@ + function_tail(
                result.view(),
                parameters_view(parameters@),
                depth as nat,
            ),
            Err(_) => is_arithmetic(result.name@) && !assignable(
                result.view(),
                parameters_view(parameters@),
            ),
        },
{
    push_indentation(collector, depth + 1);
    collector.append("}\n}\n\n");
    if names_arithmetic(result.name) {
        match emit_assign_trait(collector, result, parameters) {
            Ok(_) => {},
            Err(error) => {
                return Err(error);
            },
        }
    }
    assert(collector@ =~= old(collector)@ + function_tail(
        result.view(),
        parameters_view(parameters@),
        depth as nat,
    ));
    Ok(())
}

/// Appends the implementation of a trait.
fn emit_function<'a>(collector: &mut String, node: &AstNode<'a>, indentation: usize) -> (result:
    Result<(), Malformed>)
    requires
        node is TraitImplementation,
    ensures
        match result {
            Ok(_) => rust_code_emittable(node.view(), indentation as nat) && final(collector)@
                == old(collector)@ + rust_code(node.view(), indentation as nat),
            Err(_) => !rust_code_emittable(node.view(), indentation as nat),
        },
    decreases node, 0int,
{
    let ghost start = collector@;
    let ghost view = node.view();
    match node {
        AstNode::TraitImplementation { result, parameters, body } => {
            proof {
                assert(view->TraitImplementation_body =~= statements_view(body@));
            }
            if !is_named(result, parameters) || indentation > usize::MAX - 2 {
                return Err(Malformed);
            }
            emit_function_head(collector, result, parameters, indentation);
            match emit_function_body(collector, body, indentation + 2) {
                Ok(_) => {},
                Err(error) => {
                    return Err(error);
                },
            }
            match emit_function_tail(collector, result, parameters, indentation) {
                Ok(_) => {},
                Err(error) => {
                    return Err(error);
                },
            }
            Ok(())
        },
        _ => Err(Malformed),
    }
}

/// Appends the text of an expression. Fails, and appends nothing, on an expression
/// that cannot be written.
pub fn emit_expression<'a>(collector: &mut String, expression: &Expression<'a>) -> (result: Result<
    (),
    Malformed,
>)
    ensures
        match result {
            Ok(_) => rust_emittable(expression.view()) && final(collector)@ == old(collector)@
                + rust_expression(expression.view()),
            Err(_) => !rust_emittable(expression.view()) && final(collector)@ == old(collector)@,
        },
{
    let mut text = String::new();
    match write_expression(&mut text, expression) {
        Ok(_) => {},
        Err(error) => {
            return Err(error);
        },
    }
    assert(text@ =~= rust_expression(expression.view()));
    collector.append(text.as_str());
    Ok(())
}

/// Appends the text of a node; `indentation` is the depth at which it stands. Fails,
/// and appends nothing, on a node that cannot be written.
pub fn emit_code<'a>(collector: &mut String, node: &AstNode<'a>, indentation: usize) -> (result:
    Result<(), Malformed>)
    ensures
        match result {
            Ok(_) => rust_code_emittable(node.view(), indentation as nat) && final(collector)@
                == old(collector)@ + rust_code(node.view(), indentation as nat),
            Err(_) => !rust_code_emittable(node.view(), indentation as nat) && final(collector)@
                == old(collector)@,
        },
{
    let mut text = String::new();
    match write_code(&mut text, node, indentation) {
        Ok(_) => {},
        Err(error) => {
            return Err(error);
        },
    }
    assert(text@ =~= rust_code(node.view(), indentation as nat));
    collector.append(text.as_str());
    Ok(())
}

} // verus!
