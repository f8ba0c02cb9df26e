//! Textual names of basis elements: `1`, `e0`, `-e12`, `e3A`.

use vstd::prelude::*;
use vstd::arithmetic::power2::lemma_pow2_strictly_increases;
use vstd::string::{StrSliceExecFns, StringExecFns};
use crate::algebra::{spec_product, BasisElement, GeometricAlgebra};
use crate::bits::{bit, lemma_shift_is_pow2, test_bit};

verus! {

/// The value of a hexadecimal digit, in either case.
pub open spec fn hex_value(c: char) -> Option<int> {
    if '0' <= c && c <= '9' {
        Some(c as int - '0' as int)
    } else if 'a' <= c && c <= 'f' {
        Some(c as int - 'a' as int + 10)
    } else if 'A' <= c && c <= 'F' {
        Some(c as int - 'A' as int + 10)
    } else {
        None
    }
}

/// The upper-case hexadecimal digit of a generator.
pub open spec fn hex_char(generator: int) -> char {
    seq![
        '0', '1', '2', '3', '4', '5', '6', '7', '8', '9', 'A', 'B', 'C', 'D', 'E', 'F',
    ][generator]
}

/// The digits of the generators of `index` below `n`, ascending.
pub open spec fn generator_digits(index: u16, n: int) -> Seq<char>
    decreases n,
{
    if n <= 0 {
        Seq::empty()
    } else if bit(index, n - 1) {
        generator_digits(index, n - 1).push(hex_char(n - 1))
    } else {
        generator_digits(index, n - 1)
    }
}

/// The element reached from `start` by multiplying, from the right and in the order
/// written, with the generator that each digit names. `None` when a character is no
/// hexadecimal digit or names a generator that the algebra lacks.
pub open spec fn spec_parse_generators(
    digits: Seq<char>,
    start: BasisElement,
    squares: Seq<isize>,
) -> Option<BasisElement>
    decreases digits.len(),
{
    if digits.len() == 0 {
        Some(start)
    } else {
        match (spec_parse_generators(digits.drop_last(), start, squares), hex_value(digits.last())) {
            (Some(element), Some(generator)) => if generator < squares.len() {
                Some(
                    spec_product(
                        element,
                        BasisElement { scalar: 1, index: 1u16 << (generator as u16) },
                        squares,
                    ),
                )
            } else {
                None
            },
            _ => None,
        }
    }
}

/// The element that a name stands for: an optional `-`, then either `1` or `e` followed
/// by the hexadecimal digits of its generators.
pub open spec fn spec_parse(name: Seq<char>, squares: Seq<isize>) -> Option<BasisElement> {
    let negative = name.len() > 0 && name[0] == '-';
    let body = if negative {
        name.drop_first()
    } else {
        name
    };
    let start = BasisElement { scalar: if negative { -1isize } else { 1isize }, index: 0 };
    if body == seq!['1'] {
        Some(start)
    } else if body.len() == 0 || body[0] != 'e' {
        None
    } else {
        spec_parse_generators(body.drop_first(), start, squares)
    }
}

/// How an element is written: `-` when negative, then `0` for a cancelled element,
/// `1` for the scalar, and otherwise `e` with the digits of its generators.
pub open spec fn spec_name(element: BasisElement) -> Seq<char> {
    let sign = if element.scalar < 0 {
        seq!['-']
    } else {
        Seq::empty()
    };
    let body = if element.scalar == 0 {
        seq!['0']
    } else if element.index == 0 {
        seq!['1']
    } else {
        seq!['e'] + generator_digits(element.index, 16)
    };
    sign + body
}

fn digit_value(c: char) -> (value: Option<usize>)
    ensures
        match value {
            Some(v) => hex_value(c) == Some(v as int) && v < 16,
            None => hex_value(c) is None,
        },
{
    if '0' <= c && c <= '9' {
        Some((c as u32 - '0' as u32) as usize)
    } else if 'a' <= c && c <= 'f' {
        Some((c as u32 - 'a' as u32) as usize + 10)
    } else if 'A' <= c && c <= 'F' {
        Some((c as u32 - 'A' as u32) as usize + 10)
    } else {
        None
    }
}

/// The digit of a generator, as a string.
pub fn generator_digit(generator: usize) -> (digit: &'static str)
    requires
        generator < 16,
    ensures
        digit@ == seq![hex_char(generator as int)],
{
    proof {
        reveal_strlit("0");
        reveal_strlit("1");
        reveal_strlit("2");
        reveal_strlit("3");
        reveal_strlit("4");
        reveal_strlit("5");
        reveal_strlit("6");
        reveal_strlit("7");
        reveal_strlit("8");
        reveal_strlit("9");
        reveal_strlit("A");
        reveal_strlit("B");
        reveal_strlit("C");
        reveal_strlit("D");
        reveal_strlit("E");
        reveal_strlit("F");
    }
    let digit = if generator == 0 {
        "0"
    } else if generator == 1 {
        "1"
    } else if generator == 2 {
        "2"
    } else if generator == 3 {
        "3"
    } else if generator == 4 {
        "4"
    } else if generator == 5 {
        "5"
    } else if generator == 6 {
        "6"
    } else if generator == 7 {
        "7"
    } else if generator == 8 {
        "8"
    } else if generator == 9 {
        "9"
    } else if generator == 10 {
        "A"
    } else if generator == 11 {
        "B"
    } else if generator == 12 {
        "C"
    } else if generator == 13 {
        "D"
    } else if generator == 14 {
        "E"
    } else {
        "F"
    };
    assert(digit@ =~= seq![hex_char(generator as int)]);
    digit
}

/// Appends the digits of the generators of `index` to `text`.
pub fn push_generator_digits(text: &mut String, index: u16)
    ensures
        final(text)@ == old(text)@ + generator_digits(index, 16),
{
    let mut i: usize = 0;
    while i < 16
        invariant
            i <= 16,
            text@ == old(text)@ + generator_digits(index, i as int),
        decreases 16 - i,
    {
        if test_bit(index, i) {
            text.append(generator_digit(i));
            assert(text@ =~= old(text)@ + generator_digits(index, i as int + 1));
        }
        i += 1;
    }
}

impl BasisElement {
    /// Reads an element from its name. The scalar of the result records the sign that
    /// generators written out of order bring.
    pub fn parse(name: &str, algebra: &GeometricAlgebra) -> (result: Option<Self>)
        requires
            algebra.well_formed(),
        ensures
            result == spec_parse(name@, algebra.generator_squares@),
            result matches Some(element) ==> element.valid_in(algebra.dimension()),
    {
        let ghost squares = algebra.generator_squares@;
        let length: usize = name.unicode_len();
        let mut start: usize = 0;
        let mut result = Self::from_index(0);
        proof {
            lemma_shift_is_pow2(0);
            vstd::arithmetic::power2::lemma_pow2_pos(algebra.dimension());
        }
        if length > 0 && name.get_char(0) == '-' {
            start = 1;
            result.scalar = -1;
        }
        let ghost body = name@.subrange(start as int, length as int);
        assert(body =~= if start == 1 {
            name@.drop_first()
        } else {
            name@
        });
        if length == start + 1 && name.get_char(start) == '1' {
            assert(body =~= seq!['1']);
            return Some(result);
        }
        if length == start || name.get_char(start) != 'e' {
            return None;
        }
        let ghost digits = body.drop_first();
        let ghost first = result;
        let mut position: usize = start + 1;
        assert(digits.take(0) =~= Seq::empty());
        assert(digits =~= name@.subrange(start as int + 1, length as int));
        assert(spec_parse(name@, squares) == spec_parse_generators(digits, first, squares));
        while position < length
            invariant
                start + 1 <= position <= length,
                spec_parse(name@, squares) == spec_parse_generators(digits, first, squares),
                length == name@.len(),
                squares == algebra.generator_squares@,
                algebra.well_formed(),
                digits == name@.subrange(start as int + 1, length as int),
                spec_parse_generators(digits.take(position - start - 1), first, squares) == Some(
                    result,
                ),
                result.valid_in(squares.len()),
            decreases length - position,
        {
            let c = name.get_char(position);
            let ghost consumed = digits.take(position - start);
            proof {
                assert(consumed.drop_last() =~= digits.take(position - start - 1));
                assert(consumed.last() == c);
            }
            match digit_value(c) {
                Some(generator) => {
                    if generator >= algebra.generator_squares.len() {
                        proof {
                            assert(spec_parse_generators(consumed, first, squares) is None);
                            lemma_parse_failure_is_final(digits, position - start, first, squares);
                        }
                        return None;
                    }
                    proof {
                        lemma_shift_is_pow2(generator as int);
                        lemma_pow2_strictly_increases(generator as nat, squares.len());
                    }
                    let factor = Self::from_index(1u16 << (generator as u16));
                    result = Self::product(&result, &factor, algebra);
                },
                None => {
                    proof {
                        assert(spec_parse_generators(consumed, first, squares) is None);
                        lemma_parse_failure_is_final(digits, position - start, first, squares);
                    }
                    return None;
                },
            }
            position += 1;
        }
        assert(digits.take(length - start - 1) =~= digits);
        Some(result)
    }

    /// The name of the element: `-` when negative, then `0`, `1` or `e` and its generators.
    pub fn to_string(&self) -> (name: String)
        ensures
            name@ == spec_name(*self),
    {
        proof {
            reveal_strlit("-");
            reveal_strlit("0");
            reveal_strlit("1");
            reveal_strlit("e");
        }
        let mut name = String::new();
        if self.scalar < 0 {
            name.append("-");
        }
        let ghost sign = name@;
        if self.scalar == 0 {
            name.append("0");
        } else if self.index == 0 {
            name.append("1");
        } else {
            name.append("e");
            push_generator_digits(&mut name, self.index);
        }
        assert(name@ =~= spec_name(*self));
        name
    }
}

/// Once a prefix of the digits cannot be read, neither can the whole.
pub proof fn lemma_parse_failure_is_final(
    digits: Seq<char>,
    prefix: int,
    start: BasisElement,
    squares: Seq<isize>,
)
    requires
        0 <= prefix <= digits.len(),
        spec_parse_generators(digits.take(prefix), start, squares) is None,
    ensures
        spec_parse_generators(digits, start, squares) is None,
    decreases digits.len() - prefix,
{
    if prefix < digits.len() {
        assert(digits.take(prefix + 1).drop_last() =~= digits.take(prefix));
        lemma_parse_failure_is_final(digits, prefix + 1, start, squares);
    } else {
        assert(digits.take(prefix) =~= digits);
    }
}

} // verus!
