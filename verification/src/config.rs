//! The configuration: the text that describes an algebra and its classes.

use vstd::prelude::*;
use vstd::string::{StrSliceExecFns, StringExecFns};
use crate::algebra::{is_signature, valid_signature, BasisElement, GeometricAlgebra};
use crate::class::{indices_of, unit_scalars, MultiVectorClass, MultiVectorClassRegistry};
use crate::names::spec_parse;

verus! {

/// The texts of a list of strings.
pub open spec fn texts(pieces: Seq<String>) -> Seq<Seq<char>> {
    pieces.map_values(|piece: String| piece@)
}

/// The pieces of a text between the occurrences of a separator. A text without the
/// separator is one piece; an empty text is one empty piece.
pub open spec fn split(text: Seq<char>, separator: char) -> Seq<Seq<char>>
    decreases text.len(),
{
    if text.len() == 0 {
        seq![Seq::empty()]
    } else {
        let front = split(text.drop_last(), separator);
        if text.last() == separator {
            front.push(Seq::empty())
        } else {
            front.drop_last().push(front.last().push(text.last()))
        }
    }
}

/// A text always splits into at least one piece, and no piece holds the separator.
pub proof fn lemma_split_pieces(text: Seq<char>, separator: char)
    ensures
        split(text, separator).len() >= 1,
        forall|i: int, j: int|
            0 <= i < split(text, separator).len() && 0 <= j < split(text, separator)[i].len()
                ==> #[trigger] split(text, separator)[i][j] != separator,
    decreases text.len(),
{
    if text.len() > 0 {
        lemma_split_pieces(text.drop_last(), separator);
    }
}

/// The pieces of a text between the occurrences of a separator.
pub fn split_text(text: &str, separator: char) -> (pieces: Vec<String>)
    ensures
        texts(pieces@) == split(text@, separator),
{
    let length: usize = text.unicode_len();
    let mut pieces: Vec<String> = Vec::new();
    let mut start: usize = 0;
    let mut i: usize = 0;
    assert(text@.take(0) =~= Seq::empty());
    assert(texts(pieces@).push(text@.subrange(0, 0)) =~= split(text@.take(0), separator));
    while i < length
        invariant
            start <= i <= length,
            length == text@.len(),
            texts(pieces@).push(text@.subrange(start as int, i as int)) == split(
                text@.take(i as int),
                separator,
            ),
        decreases length - i,
    {
        let c = text.get_char(i);
        let ghost front = split(text@.take(i as int), separator);
        let ghost finished = texts(pieces@);
        let ghost current = text@.subrange(start as int, i as int);
        proof {
            assert(text@.take(i as int + 1).drop_last() =~= text@.take(i as int));
            assert(text@.take(i as int + 1).last() == c);
            assert(front.drop_last() =~= finished);
            assert(front.last() == current);
        }
        if c == separator {
            pieces.push(text.substring_char(start, i).to_owned());
            start = i + 1;
            assert(texts(pieces@) =~= front);
            assert(text@.subrange(start as int, i as int + 1) =~= Seq::empty());
        } else {
            assert(text@.subrange(start as int, i as int + 1) =~= current.push(c));
        }
        assert(texts(pieces@).push(text@.subrange(start as int, i as int + 1)) =~= split(
            text@.take(i as int + 1),
            separator,
        ));
        i += 1;
    }
    assert(text@.take(length as int) =~= text@);
    let ghost finished = texts(pieces@);
    pieces.push(text.substring_char(start, length).to_owned());
    assert(texts(pieces@) =~= finished.push(text@.subrange(start as int, length as int)));
    pieces
}

/// Whether the character is one of `0` to `9`.
pub open spec fn is_digit(c: char) -> bool {
    '0' <= c && c <= '9'
}

/// Whether the text holds decimal digits only.
pub open spec fn all_digits(digits: Seq<char>) -> bool {
    forall|i: int| 0 <= i < digits.len() ==> is_digit(#[trigger] digits[i])
}

/// The number that decimal digits write.
pub open spec fn digits_value(digits: Seq<char>) -> nat
    decreases digits.len(),
{
    if digits.len() == 0 {
        0
    } else {
        (10 * digits_value(digits.drop_last()) + (digits.last() as int - '0' as int)) as nat
    }
}

/// The digits of a number without its sign.
pub open spec fn unsigned_part(text: Seq<char>) -> Seq<char> {
    if text.len() > 0 && (text[0] == '-' || text[0] == '+') {
        text.drop_first()
    } else {
        text
    }
}

/// The whole number that a text writes: decimal digits, at least one, after `-` or `+`
/// or nothing.
pub open spec fn spec_integer(text: Seq<char>) -> Option<int> {
    let digits = unsigned_part(text);
    if digits.len() == 0 || !all_digits(digits) {
        None
    } else if text[0] == '-' {
        Some(-(digits_value(digits) as int))
    } else {
        Some(digits_value(digits) as int)
    }
}

/// More digits write no smaller number.
pub proof fn lemma_digits_value_grows(digits: Seq<char>, shorter: int)
    requires
        all_digits(digits),
        0 <= shorter <= digits.len(),
    ensures
        digits_value(digits.take(shorter)) <= digits_value(digits),
    decreases digits.len() - shorter,
{
    if shorter < digits.len() {
        lemma_digits_value_grows(digits, shorter + 1);
        assert(digits.take(shorter + 1).drop_last() =~= digits.take(shorter));
        assert(is_digit(digits[shorter]));
    } else {
        assert(digits.take(shorter) =~= digits);
    }
}

/// The whole number that a text writes, if it writes one that the machine holds.
pub fn parse_integer(text: &str) -> (number: Option<isize>)
    ensures
        match number {
            Some(value) => spec_integer(text@) == Some(value as int),
            None => match spec_integer(text@) {
                Some(value) => value < isize::MIN || value > isize::MAX,
                None => true,
            },
        },
{
    let length: usize = text.unicode_len();
    let mut start: usize = 0;
    let mut negative = false;
    if length > 0 {
        let first = text.get_char(0);
        if first == '-' || first == '+' {
            start = 1;
            negative = first == '-';
        }
    }
    let ghost digits = unsigned_part(text@);
    assert(digits =~= text@.subrange(start as int, length as int));
    if start == length {
        return None;
    }
    let limit: u128 = isize::MAX as u128 + 1;
    let mut value: u128 = 0;
    let mut i: usize = start;
    assert(digits.take(0) =~= Seq::empty());
    while i < length
        invariant
            start <= i <= length,
            length == text@.len(),
            digits == text@.subrange(start as int, length as int),
            digits == unsigned_part(text@),
            negative == (text@[0] == '-'),
            limit == isize::MAX + 1,
            value <= limit,
            all_digits(digits.take(i - start)),
            value == digits_value(digits.take(i - start)),
        decreases length - i,
    {
        let c = text.get_char(i);
        let ghost done = digits.take(i - start);
        let ghost more = digits.take(i - start + 1);
        proof {
            assert(digits[i - start] == c);
            assert(more.drop_last() =~= done);
            assert(more.last() == c);
        }
        if !('0' <= c && c <= '9') {
            assert(!is_digit(digits[i - start]));
            return None;
        }
        assert forall|k: int| 0 <= k < more.len() implies is_digit(#[trigger] more[k]) by {
            if k < done.len() {
                assert(more[k] == done[k]);
            }
        }
        let digit: u128 = (c as u32 - '0' as u32) as u128;
        value = value * 10 + digit;
        if value > limit {
            proof {
                if all_digits(digits) {
                    lemma_digits_value_grows(digits, i - start + 1);
                }
            }
            return None;
        }
        i += 1;
    }
    assert(digits.take(length - start) =~= digits);
    if negative {
        let wide: i128 = -(value as i128);
        Some(wide as isize)
    } else if value == limit {
        None
    } else {
        Some(value as isize)
    }
}

/// Whether a text writes a whole number that the machine holds.
pub open spec fn is_number(text: Seq<char>) -> bool {
    match spec_integer(text) {
        Some(value) => isize::MIN <= value <= isize::MAX,
        None => false,
    }
}

/// The whole numbers that a list of texts writes, if all of them write one.
pub open spec fn described_numbers(pieces: Seq<Seq<char>>) -> Option<Seq<isize>> {
    if forall|i: int| 0 <= i < pieces.len() ==> is_number(#[trigger] pieces[i]) {
        Some(Seq::new(pieces.len(), |i: int| spec_integer(pieces[i])->Some_0 as isize))
    } else {
        None
    }
}

/// The elements that a list of names names in an algebra, if all of them name one.
pub open spec fn described_elements(names: Seq<Seq<char>>, squares: Seq<isize>) -> Option<
    Seq<BasisElement>,
> {
    if forall|i: int| 0 <= i < names.len() ==> spec_parse(#[trigger] names[i], squares) is Some {
        Some(Seq::new(names.len(), |i: int| spec_parse(names[i], squares)->Some_0))
    } else {
        None
    }
}

/// The groups that a list of texts describes, each a list of names between commas, if
/// every name names an element.
pub open spec fn described_groups(groups: Seq<Seq<char>>, squares: Seq<isize>) -> Option<
    Seq<Seq<BasisElement>>,
> {
    if forall|i: int|
        0 <= i < groups.len() ==> described_elements(split(#[trigger] groups[i], ','), squares)
            is Some {
        Some(
            Seq::new(
                groups.len(),
                |i: int| described_elements(split(groups[i], ','), squares)->Some_0,
            ),
        )
    } else {
        None
    }
}

/// What a text says of a class: its name and the elements of its groups.
pub ghost struct ClassDescription {
    pub name: Seq<char>,
    pub groups: Seq<Seq<BasisElement>>,
}

/// What a configuration says: the name of the algebra, the squares of its generators,
/// and its classes in the order of their declaration.
pub ghost struct ConfigurationView {
    pub algebra_name: Seq<char>,
    pub generator_squares: Seq<isize>,
    pub classes: Seq<ClassDescription>,
}

/// Why a text is no configuration.
#[derive(Clone, Copy, PartialEq, Eq, Debug)]
pub enum ConfigurationError {
    /// The algebra has a name but no generator squares.
    MissingSignature,
    /// A generator square is no whole number.
    BadNumber,
    /// There are more than 15 generators, or one squares to something else than
    /// `-1`, `0` or `+1`.
    BadSignature,
    /// A class has a name but no groups.
    MissingGroups,
    /// A name in a group names no element of the algebra.
    UnknownElement,
    /// A class holds an element twice.
    BadClass,
}

/// Whether groups are those of a well-formed class: at least one group, no empty
/// group, no index twice, and every scalar `-1`, `0` or `+1`.
pub open spec fn well_formed_groups(groups: Seq<Seq<BasisElement>>) -> bool {
    &&& groups.len() >= 1
    &&& forall|g: int| 0 <= g < groups.len() ==> (#[trigger] groups[g]).len() >= 1
    &&& indices_of(groups.flatten()).no_duplicates()
    &&& unit_scalars(groups.flatten())
}

/// The squares of the generators that the first field describes: the numbers between
/// commas behind the first colon.
pub open spec fn described_signature(field: Seq<char>) -> Result<Seq<isize>, ConfigurationError> {
    signature_of(split(field, ':'))
}

/// The class that a field describes: its name before the first colon, behind it the
/// groups between bars.
pub open spec fn described_class(field: Seq<char>, squares: Seq<isize>) -> Result<
    ClassDescription,
    ConfigurationError,
> {
    let parts = split(field, ':');
    if parts.len() < 2 {
        Err(ConfigurationError::MissingGroups)
    } else {
        match described_groups(split(parts[1], '|'), squares) {
            None => Err(ConfigurationError::UnknownElement),
            Some(groups) => if well_formed_groups(groups) {
                Ok(ClassDescription { name: parts[0], groups })
            } else {
                Err(ConfigurationError::BadClass)
            },
        }
    }
}

/// The classes that the fields behind the first describe, up to field `upto`; the
/// first field that describes none decides the error.
pub open spec fn described_classes(fields: Seq<Seq<char>>, squares: Seq<isize>, upto: int) -> Result<
    Seq<ClassDescription>,
    ConfigurationError,
>
    decreases upto,
{
    if upto <= 1 {
        Ok(Seq::empty())
    } else {
        match described_classes(fields, squares, upto - 1) {
            Err(error) => Err(error),
            Ok(classes) => match described_class(fields[upto - 1], squares) {
                Err(error) => Err(error),
                Ok(class) => Ok(classes.push(class)),
            },
        }
    }
}

/// What a text configures: its fields stand between semicolons, the first describes
/// the algebra, each of the others a class.
pub open spec fn spec_configuration(text: Seq<char>) -> Result<
    ConfigurationView,
    ConfigurationError,
> {
    let fields = split(text, ';');
    match described_signature(fields[0]) {
        Err(error) => Err(error),
        Ok(squares) => match described_classes(fields, squares, fields.len() as int) {
            Err(error) => Err(error),
            Ok(classes) => Ok(
                ConfigurationView {
                    algebra_name: split(fields[0], ':')[0],
                    generator_squares: squares,
                    classes,
                },
            ),
        },
    }
}

/// Once a field describes no class, more fields change nothing.
pub proof fn lemma_first_error_decides(
    fields: Seq<Seq<char>>,
    squares: Seq<isize>,
    upto: int,
    further: int,
)
    requires
        described_classes(fields, squares, upto) is Err,
        upto <= further,
    ensures
        described_classes(fields, squares, further) == described_classes(fields, squares, upto),
    decreases further - upto,
{
    if upto < further {
        lemma_first_error_decides(fields, squares, upto, further - 1);
    }
}

/// A configuration: an algebra and its classes.
pub struct Configuration {
    pub algebra_name: String,
    pub generator_squares: Vec<isize>,
    pub registry: MultiVectorClassRegistry,
}

/// What a class is described as.
pub open spec fn description_of(class: MultiVectorClass) -> ClassDescription {
    ClassDescription { name: class.class_name@, groups: class.spec_groups() }
}

impl Configuration {
    /// What the configuration says.
    pub open spec fn view(&self) -> ConfigurationView {
        ConfigurationView {
            algebra_name: self.algebra_name@,
            generator_squares: self.generator_squares@,
            classes: descriptions(self.registry.classes@),
        }
    }

    /// The algebra and every class are well formed.
    pub open spec fn well_formed(&self) -> bool {
        valid_signature(self.generator_squares@) && self.registry.valid()
    }
}

/// The whole numbers that a list of texts writes.
fn read_numbers(pieces: &Vec<String>) -> (numbers: Option<Vec<isize>>)
    ensures
        match numbers {
            Some(numbers) => described_numbers(texts(pieces@)) == Some(numbers@),
            None => described_numbers(texts(pieces@)) is None,
        },
{
    let ghost views = texts(pieces@);
    let mut numbers: Vec<isize> = Vec::new();
    let mut i: usize = 0;
    while i < pieces.len()
        invariant
            i <= pieces.len(),
            views == texts(pieces@),
            numbers@.len() == i,
            forall|k: int| 0 <= k < i ==> is_number(#[trigger] views[k]),
            forall|k: int| 0 <= k < i ==> numbers@[k] == spec_integer(views[k])->Some_0 as isize,
        decreases pieces.len() - i,
    {
        assert(views[i as int] == pieces@[i as int]@);
        match parse_integer(pieces[i].as_str()) {
            Some(number) => {
                numbers.push(number);
            },
            None => {
                assert(!is_number(views[i as int]));
                return None;
            },
        }
        i += 1;
    }
    assert(numbers@ =~= described_numbers(views)->Some_0);
    Some(numbers)
}

/// The elements that a list of names names.
fn read_elements(names: &Vec<String>, algebra: &GeometricAlgebra) -> (elements: Option<
    Vec<BasisElement>,
>)
    requires
        algebra.well_formed(),
    ensures
        match elements {
            Some(elements) => described_elements(texts(names@), algebra.generator_squares@)
                == Some(elements@),
            None => described_elements(texts(names@), algebra.generator_squares@) is None,
        },
{
    let ghost views = texts(names@);
    let ghost squares = algebra.generator_squares@;
    let mut elements: Vec<BasisElement> = Vec::new();
    let mut i: usize = 0;
    while i < names.len()
        invariant
            i <= names.len(),
            algebra.well_formed(),
            views == texts(names@),
            squares == algebra.generator_squares@,
            elements@.len() == i,
            forall|k: int| 0 <= k < i ==> spec_parse(#[trigger] views[k], squares) is Some,
            forall|k: int| 0 <= k < i ==> elements@[k] == spec_parse(views[k], squares)->Some_0,
        decreases names.len() - i,
    {
        assert(views[i as int] == names@[i as int]@);
        match BasisElement::parse(names[i].as_str(), algebra) {
            Some(element) => {
                elements.push(element);
            },
            None => {
                assert(spec_parse(views[i as int], squares) is None);
                return None;
            },
        }
        i += 1;
    }
    assert(elements@ =~= described_elements(views, squares)->Some_0);
    Some(elements)
}

/// The groups that a list of texts describes.
fn read_groups(groups: &Vec<String>, algebra: &GeometricAlgebra) -> (grouped: Option<
    Vec<Vec<BasisElement>>,
>)
    requires
        algebra.well_formed(),
    ensures
        match grouped {
            Some(grouped) => described_groups(texts(groups@), algebra.generator_squares@) == Some(
                grouped@.map_values(|group: Vec<BasisElement>| group@),
            ),
            None => described_groups(texts(groups@), algebra.generator_squares@) is None,
        },
{
    let ghost views = texts(groups@);
    let ghost squares = algebra.generator_squares@;
    let mut grouped: Vec<Vec<BasisElement>> = Vec::new();
    let mut i: usize = 0;
    while i < groups.len()
        invariant
            i <= groups.len(),
            algebra.well_formed(),
            views == texts(groups@),
            squares == algebra.generator_squares@,
            grouped@.len() == i,
            forall|k: int|
                0 <= k < i ==> described_elements(split(#[trigger] views[k], ','), squares) is Some,
            forall|k: int|
                0 <= k < i ==> grouped@[k]@ == described_elements(
                    split(views[k], ','),
                    squares,
                )->Some_0,
        decreases groups.len() - i,
    {
        assert(views[i as int] == groups@[i as int]@);
        let names = split_text(groups[i].as_str(), ',');
        match read_elements(&names, algebra) {
            Some(elements) => {
                grouped.push(elements);
            },
            None => {
                assert(described_elements(split(views[i as int], ','), squares) is None);
                return None;
            },
        }
        i += 1;
    }
    assert(grouped@.map_values(|group: Vec<BasisElement>| group@) =~= described_groups(
        views,
        squares,
    )->Some_0);
    Some(grouped)
}

/// The squares of the generators that the first field describes.
fn read_signature(parts: &Vec<String>) -> (squares: Result<Vec<isize>, ConfigurationError>)
    ensures
        match squares {
            Ok(squares) => signature_of(texts(parts@)) == Ok::<Seq<isize>, ConfigurationError>(
                squares@,
            ),
            Err(error) => signature_of(texts(parts@)) == Err::<Seq<isize>, ConfigurationError>(
                error,
            ),
        },
{
    if parts.len() < 2 {
        return Err(ConfigurationError::MissingSignature);
    }
    assert(texts(parts@)[1] == parts@[1]@);
    let pieces = split_text(parts[1].as_str(), ',');
    match read_numbers(&pieces) {
        None => Err(ConfigurationError::BadNumber),
        Some(squares) => {
            if is_signature(squares.as_slice()) {
                Ok(squares)
            } else {
                Err(ConfigurationError::BadSignature)
            }
        },
    }
}

/// The squares of the generators that the parts of the first field describe.
pub open spec fn signature_of(parts: Seq<Seq<char>>) -> Result<Seq<isize>, ConfigurationError> {
    if parts.len() < 2 {
        Err(ConfigurationError::MissingSignature)
    } else {
        match described_numbers(split(parts[1], ',')) {
            None => Err(ConfigurationError::BadNumber),
            Some(squares) => if valid_signature(squares) {
                Ok(squares)
            } else {
                Err(ConfigurationError::BadSignature)
            },
        }
    }
}

/// The class that a field describes.
fn read_class(field: &str, algebra: &GeometricAlgebra) -> (class: Result<
    MultiVectorClass,
    ConfigurationError,
>)
    requires
        algebra.well_formed(),
    ensures
        match class {
            Ok(class) => class.well_formed() && described_class(field@, algebra.generator_squares@)
                == Ok::<ClassDescription, ConfigurationError>(description_of(class)),
            Err(error) => described_class(field@, algebra.generator_squares@) == Err::<
                ClassDescription,
                ConfigurationError,
            >(error),
        },
{
    let parts = split_text(field, ':');
    if parts.len() < 2 {
        return Err(ConfigurationError::MissingGroups);
    }
    assert(texts(parts@)[0] == parts@[0]@);
    assert(texts(parts@)[1] == parts@[1]@);
    let groups = split_text(parts[1].as_str(), '|');
    match read_groups(&groups, algebra) {
        None => Err(ConfigurationError::UnknownElement),
        Some(grouped_basis) => {
            let class = MultiVectorClass {
                class_name: parts[0].as_str().to_owned(),
                grouped_basis,
            };
            if class.is_well_formed() {
                Ok(class)
            } else {
                Err(ConfigurationError::BadClass)
            }
        },
    }
}

/// The descriptions of a list of classes.
pub open spec fn descriptions(classes: Seq<MultiVectorClass>) -> Seq<ClassDescription> {
    classes.map_values(|class: MultiVectorClass| description_of(class))
}

/// Adds a well-formed class to a registry of well-formed classes.
fn register_class(registry: &mut MultiVectorClassRegistry, class: MultiVectorClass)
    requires
        old(registry).valid(),
        class.well_formed(),
    ensures
        final(registry).valid(),
        final(registry).classes@ == old(registry).classes@.push(class),
        descriptions(final(registry).classes@) == descriptions(old(registry).classes@).push(
            description_of(class),
        ),
{
    registry.register(class);
    proof {
        assert forall|i: int| 0 <= i < registry.classes@.len() implies (
        #[trigger] registry.classes@[i]).well_formed() by {
            if i < old(registry).classes@.len() {
                assert(registry.classes@[i] == old(registry).classes@[i]);
            }
        }
        assert(descriptions(registry.classes@) =~= descriptions(old(registry).classes@).push(
            description_of(class),
        ));
    }
}

/// The classes that the fields behind the first describe.
fn read_classes(fields: &Vec<String>, generator_squares: &Vec<isize>) -> (result: Result<
    MultiVectorClassRegistry,
    ConfigurationError,
>)
    requires
        valid_signature(generator_squares@),
    ensures
        match result {
            Ok(registry) => registry.valid() && described_classes(
                texts(fields@),
                generator_squares@,
                fields@.len() as int,
            ) == Ok::<Seq<ClassDescription>, ConfigurationError>(descriptions(registry.classes@)),
            Err(error) => described_classes(
                texts(fields@),
                generator_squares@,
                fields@.len() as int,
            ) == Err::<Seq<ClassDescription>, ConfigurationError>(error),
        },
{
    let ghost views = texts(fields@);
    let ghost squares = generator_squares@;
    let algebra = GeometricAlgebra { generator_squares: generator_squares.as_slice() };
    let mut registry = MultiVectorClassRegistry::new();
    let mut k: usize = 1;
    assert(descriptions(registry.classes@) =~= Seq::empty());
    if fields.len() == 0 {
        return Ok(registry);
    }
    while k < fields.len()
        invariant
            1 <= k <= fields.len(),
            views == texts(fields@),
            squares == generator_squares@,
            algebra.generator_squares@ == squares,
            algebra.well_formed(),
            registry.valid(),
            described_classes(views, squares, k as int) == Ok::<
                Seq<ClassDescription>,
                ConfigurationError,
            >(descriptions(registry.classes@)),
        decreases fields.len() - k,
    {
        assert(views[k as int] == fields@[k as int]@);
        match read_class(fields[k].as_str(), &algebra) {
            Ok(class) => {
                register_class(&mut registry, class);
            },
            Err(error) => {
                proof {
                    lemma_first_error_decides(views, squares, k as int + 1, fields.len() as int);
                }
                return Err(error);
            },
        }
        k += 1;
    }
    Ok(registry)
}

/// Reads a configuration: the fields of the text stand between semicolons; the first
/// holds the name of the algebra and, behind a colon, the squares of its generators
/// between commas; each of the others holds the name of a class and, behind a colon,
/// its groups between bars, each group the names of its elements between commas.
pub fn parse_configuration(text: &str) -> (result: Result<Configuration, ConfigurationError>)
    ensures
        match result {
            Ok(configuration) => configuration.well_formed() && spec_configuration(text@) == Ok::<
                ConfigurationView,
                ConfigurationError,
            >(configuration@),
            Err(error) => spec_configuration(text@) == Err::<
                ConfigurationView,
                ConfigurationError,
            >(error),
        },
{
    let fields = split_text(text, ';');
    let ghost views = texts(fields@);
    proof {
        lemma_split_pieces(text@, ';');
    }
    assert(views[0] == fields@[0]@);
    let parts = split_text(fields[0].as_str(), ':');
    proof {
        lemma_split_pieces(views[0], ':');
    }
    assert(texts(parts@)[0] == parts@[0]@);
    let generator_squares = match read_signature(&parts) {
        Ok(squares) => squares,
        Err(error) => {
            return Err(error);
        },
    };
    let registry = match read_classes(&fields, &generator_squares) {
        Ok(registry) => registry,
        Err(error) => {
            return Err(error);
        },
    };
    Ok(Configuration { algebra_name: parts[0].as_str().to_owned(), generator_squares, registry })
}

} // verus!
