//! What the two dialects share: the names of the emitted code, numbers and lists as
//! text, and the emitter that writes both.

use vstd::prelude::*;
use vstd::string::{StrSliceExecFns, StringExecFns};
use crate::algebra::BasisElement;
use crate::ast::{
    parameters_view, AstNode, ContentView, DataType, ExpressionContent, ExpressionView, Parameter,
    ParameterView,
};
use crate::compile::class_of;
use crate::glsl::{glsl_code, glsl_code_emittable};
use crate::rust::{rust_code, rust_code_emittable};
use crate::names::{generator_digits, push_generator_digits, spec_name};

verus! {

/// Whether the character is one of `A` to `Z`.
pub open spec fn is_upper(c: char) -> bool {
    'A' <= c && c <= 'Z'
}

/// The lower-case letter of one of `A` to `Z`; any other character is left as it is.
pub open spec fn to_lower(c: char) -> char {
    if is_upper(c) {
        ((c as int) + 32) as char
    } else {
        c
    }
}

/// A name in lower snake case: every letter of `A` to `Z` becomes its lower-case letter,
/// after an underscore unless it stands first.
pub open spec fn spec_snake_case(name: Seq<char>) -> Seq<char>
    decreases name.len(),
{
    if name.len() == 0 {
        Seq::empty()
    } else {
        let front = spec_snake_case(name.drop_last());
        if is_upper(name.last()) && name.len() > 1 {
            front.push('_').push(to_lower(name.last()))
        } else {
            front.push(to_lower(name.last()))
        }
    }
}

/// An indentation of the given depth: four spaces for each level.
pub open spec fn spec_indentation(indentation: nat) -> Seq<char> {
    Seq::new(4 * indentation, |i: int| ' ')
}

/// The name of the component of an element that is not cancelled: `scalar` for the
/// scalar, else `e` and the digits of the generators, after an underscore when the
/// element is negative.
pub open spec fn spec_element_name(element: BasisElement) -> Seq<char> {
    if element.index == 0 {
        "scalar"@
    } else if element.scalar < 0 {
        "_e"@ + generator_digits(element.index, 16)
    } else {
        "e"@ + generator_digits(element.index, 16)
    }
}

/// The lower-case letter of one of `A` to `Z`, as a text.
fn lower_letter(c: char) -> (letter: Option<&'static str>)
    ensures
        match letter {
            Some(letter) => is_upper(c) && letter@ == seq![to_lower(c)],
            None => !is_upper(c),
        },
{
    proof {
        reveal_strlit("a");
        reveal_strlit("b");
        reveal_strlit("c");
        reveal_strlit("d");
        reveal_strlit("e");
        reveal_strlit("f");
        reveal_strlit("g");
        reveal_strlit("h");
        reveal_strlit("i");
        reveal_strlit("j");
        reveal_strlit("k");
        reveal_strlit("l");
        reveal_strlit("m");
        reveal_strlit("n");
        reveal_strlit("o");
        reveal_strlit("p");
        reveal_strlit("q");
        reveal_strlit("r");
        reveal_strlit("s");
        reveal_strlit("t");
        reveal_strlit("u");
        reveal_strlit("v");
        reveal_strlit("w");
        reveal_strlit("x");
        reveal_strlit("y");
        reveal_strlit("z");
    }
    if c == 'A' {
        Some("a")
    } else if c == 'B' {
        Some("b")
    } else if c == 'C' {
        Some("c")
    } else if c == 'D' {
        Some("d")
    } else if c == 'E' {
        Some("e")
    } else if c == 'F' {
        Some("f")
    } else if c == 'G' {
        Some("g")
    } else if c == 'H' {
        Some("h")
    } else if c == 'I' {
        Some("i")
    } else if c == 'J' {
        Some("j")
    } else if c == 'K' {
        Some("k")
    } else if c == 'L' {
        Some("l")
    } else if c == 'M' {
        Some("m")
    } else if c == 'N' {
        Some("n")
    } else if c == 'O' {
        Some("o")
    } else if c == 'P' {
        Some("p")
    } else if c == 'Q' {
        Some("q")
    } else if c == 'R' {
        Some("r")
    } else if c == 'S' {
        Some("s")
    } else if c == 'T' {
        Some("t")
    } else if c == 'U' {
        Some("u")
    } else if c == 'V' {
        Some("v")
    } else if c == 'W' {
        Some("w")
    } else if c == 'X' {
        Some("x")
    } else if c == 'Y' {
        Some("y")
    } else if c == 'Z' {
        Some("z")
    } else {
        None
    }
}

/// The name in lower snake case.
pub fn camel_to_snake_case(name: &str) -> (snake: String)
    ensures
        snake@ == spec_snake_case(name@),
{
    let length: usize = name.unicode_len();
    let mut snake = String::new();
    let mut i: usize = 0;
    assert(name@.take(0) =~= Seq::empty());
    while i < length
        invariant
            i <= length,
            length == name@.len(),
            snake@ == spec_snake_case(name@.take(i as int)),
        decreases length - i,
    {
        let c = name.get_char(i);
        proof {
            assert(name@.take(i as int + 1).drop_last() =~= name@.take(i as int));
            assert(name@.take(i as int + 1).last() == c);
        }
        match lower_letter(c) {
            Some(letter) => {
                if i > 0 {
                    proof {
                        reveal_strlit("_");
                    }
                    snake.append("_");
                }
                snake.append(letter);
            },
            None => {
                let same = name.substring_char(i, i + 1);
                assert(same@ =~= seq![c]);
                snake.append(same);
            },
        }
        assert(snake@ =~= spec_snake_case(name@.take(i as int + 1)));
        i += 1;
    }
    assert(name@.take(length as int) =~= name@);
    snake
}

/// The indentation of the given depth.
pub fn emit_indentation(indentation: usize) -> (text: String)
    ensures
        text@ == spec_indentation(indentation as nat),
{
    let mut text = String::new();
    let mut level: usize = 0;
    while level < indentation
        invariant
            level <= indentation,
            text@ == spec_indentation(level as nat),
        decreases indentation - level,
    {
        text.append("    ");
        proof {
            reveal_strlit("    ");
            assert("    "@.len() == 4);
            assert(text@ =~= spec_indentation((level + 1) as nat));
        }
        level += 1;
    }
    text
}

/// The name of the component of an element in the generated code.
pub fn emit_element_name(element: &BasisElement) -> (name: String)
    requires
        element.scalar != 0,
    ensures
        name@ == spec_element_name(*element),
{
    let mut name = String::new();
    if element.index == 0 {
        name.append("scalar");
    } else {
        if element.scalar < 0 {
            name.append("_e");
        } else {
            name.append("e");
        }
        push_generator_digits(&mut name, element.index);
    }
    assert(name@ =~= spec_element_name(*element));
    name
}

/// The decimal digit of a number below ten.
pub open spec fn decimal_digit(digit: nat) -> char {
    seq!['0', '1', '2', '3', '4', '5', '6', '7', '8', '9'][digit as int]
}

/// A number in decimal digits, without leading zeros.
pub open spec fn decimal(number: nat) -> Seq<char>
    decreases number,
{
    if number < 10 {
        seq![decimal_digit(number)]
    } else {
        decimal(number / 10).push(decimal_digit(number % 10))
    }
}

/// A whole number as a literal with one decimal: `-1.0`, `0.0`, `12.0`.
pub open spec fn spec_literal(value: int) -> Seq<char> {
    let sign = if value < 0 {
        seq!['-']
    } else {
        Seq::empty()
    };
    sign + decimal((if value < 0 {
        -value
    } else {
        value
    }) as nat) + seq!['.', '0']
}

/// The name of the free function of an operation: the classes of the receiver and of a
/// second operand that is a multivector, then the operation, all in lower snake case.
/// A constant has the class of its result in place of a receiver; a conversion has the
/// class of its result in place of a second operand.
pub open spec fn spec_function_name(result: ParameterView, parameters: Seq<ParameterView>) -> Seq<
    char,
> {
    let underscore = seq!['_'];
    let receiver = if parameters.len() == 0 {
        spec_snake_case(class_of(result.data_type).class_name@)
    } else {
        spec_snake_case(class_of(parameters[0].data_type).class_name@)
    };
    let second = if parameters.len() == 1 && result.name == "Into"@ {
        underscore + spec_snake_case(class_of(result.data_type).class_name@)
    } else if parameters.len() == 2 && parameters[1].data_type is MultiVector {
        underscore + spec_snake_case(class_of(parameters[1].data_type).class_name@)
    } else {
        Seq::empty()
    };
    receiver + second + underscore + spec_snake_case(result.name)
}

/// The decimal digit of a number below ten, as a text.
fn digit_text(digit: u128) -> (text: &'static str)
    requires
        digit < 10,
    ensures
        text@ == seq![decimal_digit(digit as nat)],
{
    proof {
        reveal_strlit("0");
        reveal_strlit("1");
        reveal_strlit("2");
        reveal_strlit("3");
        reveal_strlit("4");
        reveal_strlit("5");
        reveal_strlit("6");
        reveal_strlit("7");
        reveal_strlit("8");
        reveal_strlit("9");
    }
    if digit == 0 {
        "0"
    } else if digit == 1 {
        "1"
    } else if digit == 2 {
        "2"
    } else if digit == 3 {
        "3"
    } else if digit == 4 {
        "4"
    } else if digit == 5 {
        "5"
    } else if digit == 6 {
        "6"
    } else if digit == 7 {
        "7"
    } else if digit == 8 {
        "8"
    } else {
        "9"
    }
}

pub(crate) fn push_decimal(text: &mut String, number: u128)
    ensures
        final(text)@ == old(text)@ + decimal(number as nat),
    decreases number,
{
    if number >= 10 {
        push_decimal(text, number / 10);
    }
    text.append(digit_text(number % 10));
    assert(text@ =~= old(text)@ + decimal(number as nat));
}

/// The literal of a whole number in the generated code, with one decimal so that it
/// reads as a floating-point number.
pub fn emit_literal(value: isize) -> (text: String)
    ensures
        text@ == spec_literal(value as int),
{
    let mut text = String::new();
    let wide: i128 = value as i128;
    proof {
        reveal_strlit("-");
        reveal_strlit(".0");
    }
    let magnitude: u128 = if wide < 0 {
        text.append("-");
        (-wide) as u128
    } else {
        wide as u128
    };
    let ghost sign = text@;
    push_decimal(&mut text, magnitude);
    text.append(".0");
    assert(text@ =~= spec_literal(value as int));
    text
}

/// The name of the free function of an operation with the given result and parameters.
pub fn emit_function_name(result: &Parameter, parameters: &Vec<Parameter>) -> (name: String)
    requires
        parameters@.len() <= 2,
        parameters@.len() == 0 || parameters@[0].data_type is MultiVector,
        parameters@.len() == 0 || (parameters@.len() == 1 && result.name@ == "Into"@)
            ==> result.data_type is MultiVector,
    ensures
        name@ == spec_function_name(result.view(), crate::ast::parameters_view(parameters@)),
{
    proof {
        reveal_strlit("_");
    }
    let ghost views = crate::ast::parameters_view(parameters@);
    let mut name = if parameters.len() == 0 {
        camel_to_snake_case(result.multi_vector_class().class_name.as_str())
    } else {
        assert(views[0] == parameters@[0].view());
        camel_to_snake_case(parameters[0].multi_vector_class().class_name.as_str())
    };
    if parameters.len() == 1 && crate::tree::same_text(result.name, "Into") {
        name.append("_");
        name.append(camel_to_snake_case(result.multi_vector_class().class_name.as_str()).as_str());
    } else if parameters.len() == 2 {
        assert(views[1] == parameters@[1].view());
        match parameters[1].data_type {
            DataType::MultiVector(class) => {
                name.append("_");
                name.append(camel_to_snake_case(class.class_name.as_str()).as_str());
            },
            _ => {},
        }
    }
    name.append("_");
    name.append(camel_to_snake_case(result.name).as_str());
    assert(name@ =~= spec_function_name(result.view(), views));
    name
}

/// The parts joined, with the separator between them.
pub open spec fn joined(parts: Seq<Seq<char>>, separator: Seq<char>) -> Seq<char>
    decreases parts.len(),
{
    if parts.len() == 0 {
        Seq::empty()
    } else if parts.len() == 1 {
        parts[0]
    } else {
        joined(parts.drop_last(), separator) + separator + parts.last()
    }
}

/// The parts one after another.
pub open spec fn concatenated(parts: Seq<Seq<char>>) -> Seq<char> {
    joined(parts, Seq::empty())
}

/// Joining one more part.
pub proof fn lemma_joined_push(parts: Seq<Seq<char>>, separator: Seq<char>, part: Seq<char>)
    ensures
        joined(parts.push(part), separator) == if parts.len() == 0 {
            part
        } else {
            joined(parts, separator) + separator + part
        },
{
    assert(parts.push(part).drop_last() =~= parts);
    assert(parts.push(part).last() == part);
    if parts.len() == 0 {
        assert(parts.push(part)[0] == part);
    }
}

/// Why a text was not written: the tree holds what has no text in the dialect.
#[derive(Clone, Copy, Debug, PartialEq, Eq)]
pub struct Malformed;

/// Appends a number in decimal digits.
pub fn push_number(text: &mut String, number: usize)
    ensures
        final(text)@ == old(text)@ + decimal(number as nat),
{
    push_decimal(text, number as u128);
}

/// Appends a whole number, with its sign, in decimal digits.
pub fn push_integer(text: &mut String, value: isize)
    ensures
        final(text)@ == old(text)@ + spec_integer_text(value as int),
{
    let wide: i128 = value as i128;
    if wide < 0 {
        proof {
            reveal_strlit("-");
        }
        text.append("-");
        push_decimal(text, (-wide) as u128);
    } else {
        push_decimal(text, wide as u128);
    }
    assert(text@ =~= old(text)@ + spec_integer_text(value as int));
}

/// A whole number with its sign in decimal digits.
pub open spec fn spec_integer_text(value: int) -> Seq<char> {
    if value < 0 {
        seq!['-'] + decimal((-value) as nat)
    } else {
        decimal(value as nat)
    }
}

/// Appends a name in lower snake case.
pub fn push_snake_case(text: &mut String, name: &str)
    ensures
        final(text)@ == old(text)@ + spec_snake_case(name@),
{
    let snake = camel_to_snake_case(name);
    text.append(snake.as_str());
}

/// Appends the indentation of the given depth.
pub fn push_indentation(text: &mut String, indentation: usize)
    ensures
        final(text)@ == old(text)@ + spec_indentation(indentation as nat),
{
    let spaces = emit_indentation(indentation);
    text.append(spaces.as_str());
}

/// The sign of a binary operation, between spaces; nothing for other nodes.
pub open spec fn operator(content: ContentView) -> Seq<char> {
    match content {
        ContentView::Add(_, _) => " + "@,
        ContentView::Subtract(_, _) => " - "@,
        ContentView::Multiply(_, _) => " * "@,
        ContentView::Divide(_, _) => " / "@,
        ContentView::LessThan(_, _) => " < "@,
        ContentView::Equal(_, _) => " == "@,
        ContentView::LogicAnd(_, _) => " & "@,
        ContentView::BitShiftRight(_, _) => " >> "@,
        _ => Seq::empty(),
    }
}

/// The operands of a binary operation.
pub open spec fn operands(content: ContentView) -> Option<(ExpressionView, ExpressionView)> {
    match content {
        ContentView::Add(a, b) => Some((*a, *b)),
        ContentView::Subtract(a, b) => Some((*a, *b)),
        ContentView::Multiply(a, b) => Some((*a, *b)),
        ContentView::Divide(a, b) => Some((*a, *b)),
        ContentView::LessThan(a, b) => Some((*a, *b)),
        ContentView::Equal(a, b) => Some((*a, *b)),
        ContentView::LogicAnd(a, b) => Some((*a, *b)),
        ContentView::BitShiftRight(a, b) => Some((*a, *b)),
        _ => None,
    }
}

/// The sign of a binary operation, between spaces.
pub(crate) fn sign_of<'a>(content: &ExpressionContent<'a>) -> (sign: &'static str)
    ensures
        sign@ == operator(content.view()),
{
    match content {
        ExpressionContent::Add(_, _) => " + ",
        ExpressionContent::Subtract(_, _) => " - ",
        ExpressionContent::Multiply(_, _) => " * ",
        ExpressionContent::Divide(_, _) => " / ",
        ExpressionContent::LessThan(_, _) => " < ",
        ExpressionContent::Equal(_, _) => " == ",
        ExpressionContent::LogicAnd(_, _) => " & ",
        ExpressionContent::BitShiftRight(_, _) => " >> ",
        _ => {
            proof {
                reveal_strlit("");
            }
            ""
        },
    }
}

/// The names of the elements of a group.
pub open spec fn element_names(group: Seq<BasisElement>) -> Seq<Seq<char>> {
    Seq::new(group.len(), |i: int| spec_name(group[i]))
}

/// Whether a function with this result and these parameters can be named: the result
/// and the receiver are multivectors, and there are at most two parameters.
pub open spec fn has_function_name(result: ParameterView, parameters: Seq<ParameterView>) -> bool {
    &&& result.data_type is MultiVector
    &&& parameters.len() <= 2
    &&& parameters.len() > 0 ==> parameters[0].data_type is MultiVector
}

/// Appends the names of the elements of a group, with commas between them.
pub(crate) fn emit_element_names(collector: &mut String, group: &Vec<BasisElement>)
    ensures
        final(collector)@ == old(collector)@ + joined(element_names(group@), ", "@),
{
    let ghost names = element_names(group@);
    let mut i: usize = 0;
    assert(collector@ =~= old(collector)@ + joined(names.take(0), ", "@));
    while i < group.len()
        invariant
            i <= group.len(),
            names == element_names(group@),
            collector@ == old(collector)@ + joined(names.take(i as int), ", "@),
        decreases group.len() - i,
    {
        if i > 0 {
            collector.append(", ");
        }
        collector.append(group[i].to_string().as_str());
        proof {
            assert(names.take(i as int + 1) =~= names.take(i as int).push(names[i as int]));
            lemma_joined_push(names.take(i as int), ", "@, names[i as int]);
            assert(collector@ =~= old(collector)@ + joined(names.take(i as int + 1), ", "@));
        }
        i += 1;
    }
    assert(names.take(group.len() as int) =~= names);
}

/// Whether a function with this result and these parameters can be named.
pub(crate) fn is_named(result: &Parameter, parameters: &Vec<Parameter>) -> (named: bool)
    ensures
        named == has_function_name(result.view(), parameters_view(parameters@)),
{
    proof {
        if parameters@.len() > 0 {
            assert(parameters_view(parameters@)[0] == parameters@[0].view());
        }
    }
    match result.data_type {
        DataType::MultiVector(_) => parameters.len() == 0 || (parameters.len() <= 2
            && match parameters[0].data_type {
            DataType::MultiVector(_) => true,
            _ => false,
        }),
        _ => false,
    }
}

/// The generated library in both dialects, as far as it is written.
pub struct Emitter {
    pub rust_collector: String,
    pub glsl_collector: String,
}

impl Emitter {
    /// An emitter that has written nothing.
    pub fn new() -> (emitter: Self)
        ensures
            emitter.rust_collector@ == Seq::<char>::empty(),
            emitter.glsl_collector@ == Seq::<char>::empty(),
    {
        Emitter { rust_collector: String::new(), glsl_collector: String::new() }
    }

    /// Appends the text of a node in both dialects. Fails, and appends nothing, on a
    /// node that cannot be written in one of them.
    pub fn emit<'a>(&mut self, node: &AstNode<'a>) -> (result: Result<(), Malformed>)
        ensures
            match result {
                Ok(_) => {
                    &&& rust_code_emittable(node.view(), 0)
                    &&& glsl_code_emittable(node.view(), 0)
                    &&& final(self).rust_collector@ == old(self).rust_collector@ + rust_code(
                        node.view(),
                        0,
                    )
                    &&& final(self).glsl_collector@ == old(self).glsl_collector@ + glsl_code(
                        node.view(),
                        0,
                    )
                },
                Err(_) => {
                    &&& !(rust_code_emittable(node.view(), 0) && glsl_code_emittable(
                        node.view(),
                        0,
                    ))
                    &&& final(self).rust_collector@ == old(self).rust_collector@
                    &&& final(self).glsl_collector@ == old(self).glsl_collector@
                },
            },
    {
        let mut rust_text = String::new();
        match crate::rust::emit_code(&mut rust_text, node, 0) {
            Ok(_) => {},
            Err(error) => {
                return Err(error);
            },
        }
        let mut glsl_text = String::new();
        match crate::glsl::emit_code(&mut glsl_text, node, 0) {
            Ok(_) => {},
            Err(error) => {
                return Err(error);
            },
        }
        assert(rust_text@ =~= rust_code(node.view(), 0));
        assert(glsl_text@ =~= glsl_code(node.view(), 0));
        self.rust_collector.append(rust_text.as_str());
        self.glsl_collector.append(glsl_text.as_str());
        Ok(())
    }
}

} // verus!
