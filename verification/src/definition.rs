//! The definition of a class in the systems dialect: the record of its groups, the
//! union over its lanes, its constructors and accessors, and its conversions.

use vstd::prelude::*;
use vstd::string::{StrSliceExecFns, StringExecFns};
use crate::algebra::BasisElement;
use crate::ast::{DataType, DataTypeView};
use crate::class::MultiVectorClass;
use crate::emit::{
    concatenated, decimal, element_names, emit_element_name, emit_element_names, joined,
    lemma_joined_push, push_indentation, push_number, spec_element_name,
    spec_indentation, Malformed,
};
use crate::names::spec_name;
use crate::rust::{emit_data_type, rust_data_type};

verus! {

/// The number of lanes of the vector that holds a group: one for a single element,
/// else four.
pub open spec fn simd_width(length: nat) -> nat {
    if length == 1 {
        1
    } else {
        4
    }
}

/// The number of lanes that stay unused behind a group.
pub open spec fn padding(length: nat) -> nat {
    if length < simd_width(length) {
        (simd_width(length) - length) as nat
    } else {
        0
    }
}

/// The number of elements in the groups before group `group`.
pub open spec fn elements_before(class: MultiVectorClass, group: int) -> nat
    decreases group,
{
    if group <= 0 {
        0
    } else {
        elements_before(class, group - 1) + class.grouped_basis@[group - 1]@.len()
    }
}

/// The number of lanes, used and unused, of the groups before group `group`.
pub open spec fn lanes_before(class: MultiVectorClass, group: int) -> nat
    decreases group,
{
    if group <= 0 {
        0
    } else {
        lanes_before(class, group - 1) + class.grouped_basis@[group - 1]@.len() + padding(
            class.grouped_basis@[group - 1]@.len(),
        )
    }
}

/// The number of lanes of the vectors of the groups before group `group`.
pub open spec fn widths_before(class: MultiVectorClass, group: int) -> nat
    decreases group,
{
    if group <= 0 {
        0
    } else {
        widths_before(class, group - 1) + simd_width(class.grouped_basis@[group - 1]@.len())
    }
}

/// The number of elements of the class.
pub open spec fn element_count(class: MultiVectorClass) -> nat {
    elements_before(class, class.grouped_basis@.len() as int)
}

/// The number of lanes of the vectors of all groups.
pub open spec fn array_length(class: MultiVectorClass) -> nat {
    widths_before(class, class.grouped_basis@.len() as int)
}

/// Later groups start at later lanes.
pub proof fn lemma_lanes_before_grows(class: MultiVectorClass, earlier: int, later: int)
    requires
        0 <= earlier <= later,
    ensures
        lanes_before(class, earlier) <= lanes_before(class, later),
    decreases later - earlier,
{
    if earlier < later {
        lemma_lanes_before_grows(class, earlier, later - 1);
    }
}

/// Where the groups of a class lie: for each group the number of elements and the
/// number of lanes before it, and the totals.
pub struct Layout {
    pub firsts: Vec<usize>,
    pub starts: Vec<usize>,
    pub elements: usize,
    pub lanes: usize,
}

impl Layout {
    /// The layout is that of the class.
    pub open spec fn of(&self, class: MultiVectorClass) -> bool {
        &&& self.firsts@.len() == class.grouped_basis@.len()
        &&& self.starts@.len() == class.grouped_basis@.len()
        &&& forall|j: int|
            0 <= j < class.grouped_basis@.len() ==> #[trigger] self.firsts@[j] == elements_before(
                class,
                j,
            )
        &&& forall|j: int|
            0 <= j < class.grouped_basis@.len() ==> #[trigger] self.starts@[j] == lanes_before(
                class,
                j,
            )
        &&& measurable(class)
        &&& self.elements == element_count(class)
        &&& self.lanes == array_length(class)
    }
}

/// Whether the lanes of the class can be counted in a machine number.
pub open spec fn measurable(class: MultiVectorClass) -> bool {
    lanes_before(class, class.grouped_basis@.len() as int) <= usize::MAX
}

/// The layout of a class, unless its lanes are too many to count.
pub fn measure(class: &MultiVectorClass) -> (layout: Option<Layout>)
    ensures
        layout is Some <==> measurable(*class),
        layout is Some ==> layout->Some_0.of(*class),
{
    let mut firsts: Vec<usize> = Vec::new();
    let mut starts: Vec<usize> = Vec::new();
    let mut elements: usize = 0;
    let mut lanes: usize = 0;
    let mut widths: usize = 0;
    let mut j: usize = 0;
    while j < class.grouped_basis.len()
        invariant
            j <= class.grouped_basis.len(),
            firsts@.len() == j,
            starts@.len() == j,
            elements == elements_before(*class, j as int),
            lanes == lanes_before(*class, j as int),
            widths == widths_before(*class, j as int),
            elements <= lanes,
            widths <= lanes,
            forall|k: int| 0 <= k < j ==> #[trigger] firsts@[k] == elements_before(*class, k),
            forall|k: int| 0 <= k < j ==> #[trigger] starts@[k] == lanes_before(*class, k),
        decreases class.grouped_basis.len() - j,
    {
        let length: usize = class.grouped_basis[j].len();
        let width: usize = if length == 1 {
            1
        } else {
            4
        };
        let unused: usize = if length < width {
            width - length
        } else {
            0
        };
        assert(unused == padding(length as nat));
        assert(width == simd_width(length as nat));
        if length > usize::MAX - unused || lanes > usize::MAX - (length + unused) {
            proof {
                lemma_lanes_before_grows(*class, j as int + 1, class.grouped_basis@.len() as int);
            }
            return None;
        }
        firsts.push(elements);
        starts.push(lanes);
        elements = elements + length;
        lanes = lanes + (length + unused);
        widths = widths + width;
        j += 1;
    }
    Some(Layout { firsts, starts, elements, lanes: widths })
}

/// Whether the character is one of `a` to `z`.
pub open spec fn is_lower(c: char) -> bool {
    'a' <= c && c <= 'z'
}

/// The capital of one of `a` to `z`; any other character is left as it is.
pub open spec fn to_upper(c: char) -> char {
    if is_lower(c) {
        ((c as int) - 32) as char
    } else {
        c
    }
}

/// A name in capitals: every letter of `a` to `z` becomes its capital.
pub open spec fn spec_upper_case(name: Seq<char>) -> Seq<char> {
    Seq::new(name.len(), |i: int| to_upper(name[i]))
}

/// The capital of one of `a` to `z`, as a text.
fn capital_letter(c: char) -> (letter: Option<&'static str>)
    ensures
        match letter {
            Some(letter) => is_lower(c) && letter@ == seq![to_upper(c)],
            None => !is_lower(c),
        },
{
    proof {
        reveal_strlit("A");
        reveal_strlit("B");
        reveal_strlit("C");
        reveal_strlit("D");
        reveal_strlit("E");
        reveal_strlit("F");
        reveal_strlit("G");
        reveal_strlit("H");
        reveal_strlit("I");
        reveal_strlit("J");
        reveal_strlit("K");
        reveal_strlit("L");
        reveal_strlit("M");
        reveal_strlit("N");
        reveal_strlit("O");
        reveal_strlit("P");
        reveal_strlit("Q");
        reveal_strlit("R");
        reveal_strlit("S");
        reveal_strlit("T");
        reveal_strlit("U");
        reveal_strlit("V");
        reveal_strlit("W");
        reveal_strlit("X");
        reveal_strlit("Y");
        reveal_strlit("Z");
    }
    if c == 'a' {
        Some("A")
    } else if c == 'b' {
        Some("B")
    } else if c == 'c' {
        Some("C")
    } else if c == 'd' {
        Some("D")
    } else if c == 'e' {
        Some("E")
    } else if c == 'f' {
        Some("F")
    } else if c == 'g' {
        Some("G")
    } else if c == 'h' {
        Some("H")
    } else if c == 'i' {
        Some("I")
    } else if c == 'j' {
        Some("J")
    } else if c == 'k' {
        Some("K")
    } else if c == 'l' {
        Some("L")
    } else if c == 'm' {
        Some("M")
    } else if c == 'n' {
        Some("N")
    } else if c == 'o' {
        Some("O")
    } else if c == 'p' {
        Some("P")
    } else if c == 'q' {
        Some("Q")
    } else if c == 'r' {
        Some("R")
    } else if c == 's' {
        Some("S")
    } else if c == 't' {
        Some("T")
    } else if c == 'u' {
        Some("U")
    } else if c == 'v' {
        Some("V")
    } else if c == 'w' {
        Some("W")
    } else if c == 'x' {
        Some("X")
    } else if c == 'y' {
        Some("Y")
    } else if c == 'z' {
        Some("Z")
    } else {
        None
    }
}

/// Appends a name in capitals.
pub fn push_upper_case(collector: &mut String, name: &str)
    ensures
        final(collector)@ == old(collector)@ + spec_upper_case(name@),
{
    let length: usize = name.unicode_len();
    let mut i: usize = 0;
    assert(collector@ =~= old(collector)@ + spec_upper_case(name@).take(0));
    while i < length
        invariant
            i <= length,
            length == name@.len(),
            collector@ == old(collector)@ + spec_upper_case(name@).take(i as int),
        decreases length - i,
    {
        let c = name.get_char(i);
        match capital_letter(c) {
            Some(letter) => {
                collector.append(letter);
            },
            None => {
                let same = name.substring_char(i, i + 1);
                assert(same@ =~= seq![c]);
                collector.append(same);
            },
        }
        assert(collector@ =~= old(collector)@ + spec_upper_case(name@).take(i as int + 1));
        i += 1;
    }
    assert(spec_upper_case(name@).take(length as int) =~= spec_upper_case(name@));
}

/// What a list says of each element of a class.
#[derive(Clone, Copy, PartialEq, Eq, Debug)]
pub enum Listing {
    /// The name of the element; an unused lane is `0`.
    Names,
    /// The component of the element, with its type.
    Parameters,
    /// The component of the element; an unused lane is `0.0`.
    Components,
    /// The number of the lane of the element.
    Lanes,
    /// The lane of the element, read from the union.
    Stored,
    /// The element by its number, read from an array; an unused lane is `0.0`.
    Read,
}

/// The text of one element in a list: `first` is the number of the element in the
/// class, `lane` the number of its lane.
pub open spec fn item_text(listing: Listing, element: BasisElement, first: nat, lane: nat) -> Seq<
    char,
> {
    match listing {
        Listing::Names => spec_name(element),
        Listing::Parameters => spec_element_name(element) + ": f32"@,
        Listing::Components => spec_element_name(element),
        Listing::Lanes => decimal(lane),
        Listing::Stored => "vector.elements["@ + decimal(lane) + "]"@,
        Listing::Read => "array["@ + decimal(first) + "]"@,
    }
}

/// What stands for an unused lane in a list, where the list shows unused lanes.
pub open spec fn filler(listing: Listing) -> Option<Seq<char>> {
    match listing {
        Listing::Names => Some("0"@),
        Listing::Components => Some("0.0"@),
        Listing::Read => Some("0.0"@),
        _ => None,
    }
}

/// The items of one group in a list: its elements, then its unused lanes.
pub open spec fn group_items(listing: Listing, group: Seq<BasisElement>, first: nat, lane: nat) -> Seq<
    Seq<char>,
> {
    Seq::new(group.len(), |i: int| item_text(listing, group[i], first + i as nat, lane + i as nat))
        + match filler(listing) {
        Some(text) => Seq::new(padding(group.len()), |i: int| text),
        None => Seq::empty(),
    }
}

/// The items of each group of the class, joined by commas.
pub open spec fn listed_groups(listing: Listing, class: MultiVectorClass) -> Seq<Seq<char>> {
    Seq::new(
        class.grouped_basis@.len(),
        |j: int|
            joined(
                group_items(
                    listing,
                    class.grouped_basis@[j]@,
                    elements_before(class, j),
                    lanes_before(class, j),
                ),
                ", "@,
            ),
    )
}

/// A list of the elements of the class: the items of all groups, joined by commas.
pub open spec fn listed(listing: Listing, class: MultiVectorClass) -> Seq<char> {
    joined(listed_groups(listing, class), ", "@)
}

/// Whether every element of the class has a component: none is cancelled.
pub open spec fn has_components(class: MultiVectorClass) -> bool {
    forall|j: int, i: int|
        0 <= j < class.grouped_basis@.len() && 0 <= i < class.grouped_basis@[j]@.len()
            ==> #[trigger] class.grouped_basis@[j]@[i].scalar != 0
}

/// Appends the text of one element in a list.
fn push_item(collector: &mut String, listing: Listing, element: &BasisElement, first: usize, lane: usize)
    requires
        element.scalar != 0,
    ensures
        final(collector)@ == old(collector)@ + item_text(
            listing,
            *element,
            first as nat,
            lane as nat,
        ),
{
    match listing {
        Listing::Names => {
            collector.append(element.to_string().as_str());
        },
        Listing::Parameters => {
            collector.append(emit_element_name(element).as_str());
            collector.append(": f32");
        },
        Listing::Components => {
            collector.append(emit_element_name(element).as_str());
        },
        Listing::Lanes => {
            push_number(collector, lane);
        },
        Listing::Stored => {
            collector.append("vector.elements[");
            push_number(collector, lane);
            collector.append("]");
        },
        Listing::Read => {
            collector.append("array[");
            push_number(collector, first);
            collector.append("]");
        },
    }
    assert(collector@ =~= old(collector)@ + item_text(listing, *element, first as nat, lane as nat));
}

/// What stands for an unused lane in a list.
fn filler_of(listing: Listing) -> (text: Option<&'static str>)
    ensures
        match text {
            Some(text) => filler(listing) == Some(text@),
            None => filler(listing) is None,
        },
{
    match listing {
        Listing::Names => Some("0"),
        Listing::Components => Some("0.0"),
        Listing::Read => Some("0.0"),
        _ => None,
    }
}

/// Appends the items of one group in a list.
fn push_group_items(
    collector: &mut String,
    listing: Listing,
    group: &Vec<BasisElement>,
    first: usize,
    lane: usize,
)
    requires
        forall|i: int| 0 <= i < group@.len() ==> (#[trigger] group@[i]).scalar != 0,
        first + group@.len() <= usize::MAX,
        lane + group@.len() <= usize::MAX,
    ensures
        final(collector)@ == old(collector)@ + joined(
            group_items(listing, group@, first as nat, lane as nat),
            ", "@,
        ),
{
    let ghost items = group_items(listing, group@, first as nat, lane as nat);
    let mut i: usize = 0;
    assert(collector@ =~= old(collector)@ + joined(items.take(0), ", "@));
    while i < group.len()
        invariant
            i <= group.len(),
            items == group_items(listing, group@, first as nat, lane as nat),
            forall|i: int| 0 <= i < group@.len() ==> (#[trigger] group@[i]).scalar != 0,
            first + group@.len() <= usize::MAX,
            lane + group@.len() <= usize::MAX,
            collector@ == old(collector)@ + joined(items.take(i as int), ", "@),
        decreases group.len() - i,
    {
        if i > 0 {
            collector.append(", ");
        }
        push_item(collector, listing, &group[i], first + i, lane + i);
        proof {
            assert(items.take(i as int + 1) =~= items.take(i as int).push(items[i as int]));
            lemma_joined_push(items.take(i as int), ", "@, items[i as int]);
            assert(collector@ =~= old(collector)@ + joined(items.take(i as int + 1), ", "@));
        }
        i += 1;
    }
    match filler_of(listing) {
        Some(text) => {
            let length: usize = group.len();
            let width: usize = if length == 1 {
                1
            } else {
                4
            };
            let unused: usize = if length < width {
                width - length
            } else {
                0
            };
            let mut k: usize = 0;
            assert(items.len() == length + unused);
            while k < unused
                invariant
                    k <= unused,
                    length == group@.len(),
                    unused == padding(length as nat),
                    filler(listing) == Some(text@),
                    items == group_items(listing, group@, first as nat, lane as nat),
                    collector@ == old(collector)@ + joined(items.take(length + k), ", "@),
                decreases unused - k,
            {
                if length + k > 0 {
                    collector.append(", ");
                }
                collector.append(text);
                proof {
                    let done = length + k;
                    assert(items[done] == text@);
                    assert(items.take(done + 1) =~= items.take(done).push(items[done]));
                    lemma_joined_push(items.take(done), ", "@, items[done]);
                    assert(collector@ =~= old(collector)@ + joined(items.take(done + 1), ", "@));
                }
                k += 1;
            }
            assert(items.take(length + unused) =~= items);
        },
        None => {
            assert(items.take(group.len() as int) =~= items);
        },
    }
}

/// Appends a list of the elements of the class.
pub fn push_listed(collector: &mut String, listing: Listing, class: &MultiVectorClass, layout: &Layout)
    requires
        layout.of(*class),
        has_components(*class),
    ensures
        final(collector)@ == old(collector)@ + listed(listing, *class),
{
    let ghost parts = listed_groups(listing, *class);
    let mut j: usize = 0;
    assert(collector@ =~= old(collector)@ + joined(parts.take(0), ", "@));
    while j < class.grouped_basis.len()
        invariant
            j <= class.grouped_basis.len(),
            layout.of(*class),
            has_components(*class),
            parts == listed_groups(listing, *class),
            collector@ == old(collector)@ + joined(parts.take(j as int), ", "@),
        decreases class.grouped_basis.len() - j,
    {
        if j > 0 {
            collector.append(", ");
        }
        let group = &class.grouped_basis[j];
        proof {
            assert(class.grouped_basis@[j as int]@ == group@);
            assert(layout.firsts@[j as int] == elements_before(*class, j as int));
            assert(layout.starts@[j as int] == lanes_before(*class, j as int));
            lemma_elements_fit(*class, j as int);
            lemma_lanes_before_grows(*class, j as int + 1, class.grouped_basis@.len() as int);
            assert forall|i: int| 0 <= i < group@.len() implies (#[trigger] group@[i]).scalar
                != 0 by {
                assert(class.grouped_basis@[j as int]@[i].scalar != 0);
            }
        }
        push_group_items(collector, listing, group, layout.firsts[j], layout.starts[j]);
        proof {
            assert(parts.take(j as int + 1) =~= parts.take(j as int).push(parts[j as int]));
            lemma_joined_push(parts.take(j as int), ", "@, parts[j as int]);
            assert(collector@ =~= old(collector)@ + joined(parts.take(j as int + 1), ", "@));
        }
        j += 1;
    }
    assert(parts.take(class.grouped_basis.len() as int) =~= parts);
}

/// No group starts at a later element than at a lane.
pub proof fn lemma_elements_fit(class: MultiVectorClass, group: int)
    requires
        0 <= group,
    ensures
        elements_before(class, group) <= lanes_before(class, group),
    decreases group,
{
    if group > 0 {
        lemma_elements_fit(class, group - 1);
    }
}

/// What a list says of each group of a class.
#[derive(Clone, Copy, PartialEq, Eq, Debug)]
pub enum Grouping {
    /// The field of the group in the record of the groups, after a comment that names
    /// its elements.
    Fields,
    /// The group as a parameter: its name and its type.
    Parameters,
    /// The name of the group.
    Names,
    /// The two functions that give the group, to read and to change.
    Accessors,
    /// The elements of the group as the fields of a printed structure.
    Entries,
}

/// The name of the field of group `place`.
pub open spec fn group_name(place: nat) -> Seq<char> {
    "g"@ + decimal(place)
}

/// The type of a group of the given number of elements.
pub open spec fn group_type(length: nat) -> Seq<char> {
    rust_data_type(DataTypeView::SimdVector(length as usize))
}

/// The field of a group in the record of the groups.
pub open spec fn group_field(group: Seq<BasisElement>, place: nat, depth: nat) -> Seq<char> {
    spec_indentation(depth + 1) + "/// "@ + joined(element_names(group), ", "@) + "\n"@
        + spec_indentation(depth + 1) + group_name(place) + ": "@ + group_type(group.len())
        + ",\n"@
}

/// A function that gives a group: `suffix` ends its name and begins its parameter,
/// `reference` is what stands before the type and before the field.
pub open spec fn accessor(
    length: nat,
    place: nat,
    depth: nat,
    suffix: Seq<char>,
    reference: Seq<char>,
) -> Seq<char> {
    spec_indentation(depth + 1) + "#[inline(always)]\n"@ + spec_indentation(depth + 1)
        + "pub fn group"@ + decimal(place) + suffix + "self) -> "@ + reference + group_type(length)
        + " {\n"@ + spec_indentation(depth + 2) + "unsafe { "@ + reference + "self.groups.g"@
        + decimal(place) + " }\n"@ + spec_indentation(depth + 1) + "}\n"@
}

/// The two functions that give a group: one to read it, one to change it.
pub open spec fn group_accessors(group: Seq<BasisElement>, place: nat, depth: nat) -> Seq<char> {
    accessor(group.len(), place, depth, "(&"@, ""@) + accessor(
        group.len(),
        place,
        depth,
        "_mut(&mut "@,
        "&mut "@,
    )
}

/// One element as a field of a printed structure: its name and its number.
pub open spec fn entry(element: BasisElement, number: nat, depth: nat) -> Seq<char> {
    spec_indentation(depth + 3) + ".field(\""@ + spec_name(element) + "\", &self["@ + decimal(
        number,
    ) + "])\n"@
}

/// The elements of a group as fields of a printed structure.
pub open spec fn group_entries(group: Seq<BasisElement>, first: nat, depth: nat) -> Seq<Seq<char>> {
    Seq::new(group.len(), |i: int| entry(group[i], first + i as nat, depth))
}

/// The text of one group in a list: `place` is the number of the group, `first` the
/// number of its first element.
pub open spec fn group_text(
    grouping: Grouping,
    group: Seq<BasisElement>,
    place: nat,
    first: nat,
    depth: nat,
) -> Seq<char> {
    match grouping {
        Grouping::Fields => group_field(group, place, depth),
        Grouping::Parameters => group_name(place) + ": "@ + group_type(group.len()),
        Grouping::Names => group_name(place),
        Grouping::Accessors => group_accessors(group, place, depth),
        Grouping::Entries => concatenated(group_entries(group, first, depth)),
    }
}

/// What stands between the groups in a list.
pub open spec fn separator(grouping: Grouping) -> Seq<char> {
    match grouping {
        Grouping::Parameters => ", "@,
        Grouping::Names => ", "@,
        _ => Seq::empty(),
    }
}

/// The texts of the groups of the class in a list.
pub open spec fn group_texts(grouping: Grouping, class: MultiVectorClass, depth: nat) -> Seq<
    Seq<char>,
> {
    Seq::new(
        class.grouped_basis@.len(),
        |j: int|
            group_text(
                grouping,
                class.grouped_basis@[j]@,
                j as nat,
                elements_before(class, j),
                depth,
            ),
    )
}

/// A list of the groups of the class.
pub open spec fn grouped(grouping: Grouping, class: MultiVectorClass, depth: nat) -> Seq<char> {
    joined(group_texts(grouping, class, depth), separator(grouping))
}

/// Appends the name of the field of a group.
fn push_group_name(collector: &mut String, place: usize)
    ensures
        final(collector)@ == old(collector)@ + group_name(place as nat),
{
    collector.append("g");
    push_number(collector, place);
    assert(collector@ =~= old(collector)@ + group_name(place as nat));
}

/// Appends the field of a group in the record of the groups.
fn push_group_field(collector: &mut String, group: &Vec<BasisElement>, place: usize, depth: usize)
    requires
        depth + 3 <= usize::MAX,
    ensures
        final(collector)@ == old(collector)@ + group_field(group@, place as nat, depth as nat),
{
    push_indentation(collector, depth + 1);
    collector.append("/// ");
    emit_element_names(collector, group);
    collector.append("\n");
    push_indentation(collector, depth + 1);
    push_group_name(collector, place);
    collector.append(": ");
    emit_data_type(collector, &DataType::SimdVector(group.len()));
    collector.append(",\n");
    assert(collector@ =~= old(collector)@ + group_field(group@, place as nat, depth as nat));
}

/// Appends the function that gives a group, to read or to change.
fn push_accessor(
    collector: &mut String,
    length: usize,
    place: usize,
    depth: usize,
    suffix: &str,
    reference: &str,
)
    requires
        depth + 3 <= usize::MAX,
    ensures
        final(collector)@ == old(collector)@ + accessor(
            length as nat,
            place as nat,
            depth as nat,
            suffix@,
            reference@,
        ),
{
    push_indentation(collector, depth + 1);
    collector.append("#[inline(always)]\n");
    push_indentation(collector, depth + 1);
    collector.append("pub fn group");
    push_number(collector, place);
    collector.append(suffix);
    collector.append("self) -> ");
    collector.append(reference);
    emit_data_type(collector, &DataType::SimdVector(length));
    collector.append(" {\n");
    push_indentation(collector, depth + 2);
    collector.append("unsafe { ");
    collector.append(reference);
    collector.append("self.groups.g");
    push_number(collector, place);
    collector.append(" }\n");
    push_indentation(collector, depth + 1);
    collector.append("}\n");
    assert(collector@ =~= old(collector)@ + accessor(
        length as nat,
        place as nat,
        depth as nat,
        suffix@,
        reference@,
    ));
}

/// Appends the two functions that give a group.
fn push_group_accessors(collector: &mut String, group: &Vec<BasisElement>, place: usize, depth: usize)
    requires
        depth + 3 <= usize::MAX,
    ensures
        final(collector)@ == old(collector)@ + group_accessors(group@, place as nat, depth as nat),
{
    push_accessor(collector, group.len(), place, depth, "(&", "");
    push_accessor(collector, group.len(), place, depth, "_mut(&mut ", "&mut ");
    assert(collector@ =~= old(collector)@ + group_accessors(group@, place as nat, depth as nat));
}

/// Appends the elements of a group as fields of a printed structure.
fn push_group_entries(collector: &mut String, group: &Vec<BasisElement>, first: usize, depth: usize)
    requires
        depth + 3 <= usize::MAX,
        first + group@.len() <= usize::MAX,
    ensures
        final(collector)@ == old(collector)@ + concatenated(
            group_entries(group@, first as nat, depth as nat),
        ),
{
    let ghost entries = group_entries(group@, first as nat, depth as nat);
    let mut i: usize = 0;
    assert(collector@ =~= old(collector)@ + concatenated(entries.take(0)));
    while i < group.len()
        invariant
            i <= group.len(),
            depth + 3 <= usize::MAX,
            first + group@.len() <= usize::MAX,
            entries == group_entries(group@, first as nat, depth as nat),
            collector@ == old(collector)@ + concatenated(entries.take(i as int)),
        decreases group.len() - i,
    {
        let ghost before = collector@;
        push_indentation(collector, depth + 3);
        collector.append(".field(\"");
        collector.append(group[i].to_string().as_str());
        collector.append("\", &self[");
        push_number(collector, first + i);
        collector.append("])\n");
        proof {
            assert(collector@ =~= before + entry(group@[i as int], (first + i) as nat, depth as nat));
            assert(entries.take(i as int + 1) =~= entries.take(i as int).push(entries[i as int]));
            lemma_joined_push(entries.take(i as int), Seq::empty(), entries[i as int]);
            assert(collector@ =~= old(collector)@ + concatenated(entries.take(i as int + 1)));
        }
        i += 1;
    }
    assert(entries.take(group.len() as int) =~= entries);
}

/// Appends the text of one group in a list.
fn push_group_text(
    collector: &mut String,
    grouping: Grouping,
    group: &Vec<BasisElement>,
    place: usize,
    first: usize,
    depth: usize,
)
    requires
        depth + 3 <= usize::MAX,
        first + group@.len() <= usize::MAX,
    ensures
        final(collector)@ == old(collector)@ + group_text(
            grouping,
            group@,
            place as nat,
            first as nat,
            depth as nat,
        ),
{
    match grouping {
        Grouping::Fields => {
            push_group_field(collector, group, place, depth);
        },
        Grouping::Parameters => {
            push_group_name(collector, place);
            collector.append(": ");
            emit_data_type(collector, &DataType::SimdVector(group.len()));
            assert(collector@ =~= old(collector)@ + group_text(
                grouping,
                group@,
                place as nat,
                first as nat,
                depth as nat,
            ));
        },
        Grouping::Names => {
            push_group_name(collector, place);
        },
        Grouping::Accessors => {
            push_group_accessors(collector, group, place, depth);
        },
        Grouping::Entries => {
            push_group_entries(collector, group, first, depth);
        },
    }
}

/// What stands between the groups in a list.
fn separator_of(grouping: Grouping) -> (text: &'static str)
    ensures
        text@ == separator(grouping),
{
    proof {
        reveal_strlit("");
    }
    match grouping {
        Grouping::Parameters => ", ",
        Grouping::Names => ", ",
        _ => "",
    }
}

/// Appends a list of the groups of the class.
pub fn push_grouped(
    collector: &mut String,
    grouping: Grouping,
    class: &MultiVectorClass,
    layout: &Layout,
    depth: usize,
)
    requires
        layout.of(*class),
        depth + 3 <= usize::MAX,
    ensures
        final(collector)@ == old(collector)@ + grouped(grouping, *class, depth as nat),
{
    let ghost parts = group_texts(grouping, *class, depth as nat);
    let between = separator_of(grouping);
    let mut j: usize = 0;
    assert(collector@ =~= old(collector)@ + joined(parts.take(0), between@));
    while j < class.grouped_basis.len()
        invariant
            j <= class.grouped_basis.len(),
            layout.of(*class),
            depth + 3 <= usize::MAX,
            between@ == separator(grouping),
            parts == group_texts(grouping, *class, depth as nat),
            collector@ == old(collector)@ + joined(parts.take(j as int), between@),
        decreases class.grouped_basis.len() - j,
    {
        if j > 0 {
            collector.append(between);
        }
        let group = &class.grouped_basis[j];
        proof {
            assert(class.grouped_basis@[j as int]@ == group@);
            assert(layout.firsts@[j as int] == elements_before(*class, j as int));
            lemma_elements_fit(*class, j as int);
            lemma_lanes_before_grows(*class, j as int + 1, class.grouped_basis@.len() as int);
        }
        push_group_text(collector, grouping, group, j, layout.firsts[j], depth);
        proof {
            assert(parts.take(j as int + 1) =~= parts.take(j as int).push(parts[j as int]));
            lemma_joined_push(parts.take(j as int), between@, parts[j as int]);
            assert(collector@ =~= old(collector)@ + joined(parts.take(j as int + 1), between@));
        }
        j += 1;
    }
    assert(parts.take(class.grouped_basis.len() as int) =~= parts);
}

/// A line at the given depth: its indentation, then three parts one after another.
#[verifier::opaque]
pub open spec fn line(depth: nat, before: Seq<char>, middle: Seq<char>, after: Seq<char>) -> Seq<
    char,
> {
    spec_indentation(depth) + before + middle + after
}

/// A text at the given depth: its indentation, then the text.
pub open spec fn indented(depth: nat, text: Seq<char>) -> Seq<char> {
    line(depth, text, Seq::empty(), Seq::empty())
}

/// Appends a line at the given depth.
fn push_line(collector: &mut String, depth: usize, before: &str, middle: &str, after: &str)
    ensures
        final(collector)@ == old(collector)@ + line(depth as nat, before@, middle@, after@),
{
    push_indentation(collector, depth);
    collector.append(before);
    collector.append(middle);
    collector.append(after);
    proof {
        reveal(line);
        assert(collector@ =~= old(collector)@ + line(depth as nat, before@, middle@, after@));
    }
}

/// Appends a text at the given depth.
fn push_indented(collector: &mut String, depth: usize, text: &str)
    ensures
        final(collector)@ == old(collector)@ + indented(depth as nat, text@),
{
    push_indentation(collector, depth);
    collector.append(text);
    proof {
        reveal(line);
        assert(collector@ =~= old(collector)@ + indented(depth as nat, text@));
    }
}

/// A number in decimal digits.
fn number_text(number: usize) -> (text: String)
    ensures
        text@ == decimal(number as nat),
{
    let mut text = String::new();
    push_number(&mut text, number);
    assert(text@ =~= decimal(number as nat));
    text
}

/// A list of the elements of the class.
fn listed_text(listing: Listing, class: &MultiVectorClass, layout: &Layout) -> (text: String)
    requires
        layout.of(*class),
        has_components(*class),
    ensures
        text@ == listed(listing, *class),
{
    let mut text = String::new();
    push_listed(&mut text, listing, class, layout);
    assert(text@ =~= listed(listing, *class));
    text
}

/// A list of the groups of the class.
fn grouped_text(grouping: Grouping, class: &MultiVectorClass, layout: &Layout, depth: usize) -> (text:
    String)
    requires
        layout.of(*class),
        depth + 3 <= usize::MAX,
    ensures
        text@ == grouped(grouping, *class, depth as nat),
{
    let mut text = String::new();
    push_grouped(&mut text, grouping, class, layout, depth);
    assert(text@ =~= grouped(grouping, *class, depth as nat));
    text
}

/// The record of the groups of the class.
#[verifier::opaque]
pub open spec fn groups_record(class: MultiVectorClass, depth: nat) -> Seq<char> {
    line(depth, "#[derive(Clone, Copy)]\nstruct "@, class.class_name@, "Groups {\n"@) + grouped(
        Grouping::Fields,
        class,
        depth,
    ) + "}\n\n"@
}

/// The union of the record of the groups and the array of all lanes.
#[verifier::opaque]
pub open spec fn lanes_union(class: MultiVectorClass, depth: nat) -> Seq<char> {
    line(depth, "#[derive(Clone, Copy)]\npub union "@, class.class_name@, " {\n"@) + line(
        depth + 1,
        "groups: "@,
        class.class_name@,
        "Groups,\n"@,
    ) + line(depth + 1, "/// "@, listed(Listing::Names, class), "\n"@) + line(
        depth + 1,
        "elements: [f32; "@,
        decimal(array_length(class)),
        "],\n"@,
    ) + indented(depth, "}\n\n"@)
}

/// The constructor of the class from its components.
#[verifier::opaque]
pub open spec fn component_constructor(class: MultiVectorClass, depth: nat) -> Seq<char> {
    indented(depth + 1, "#[allow(clippy::too_many_arguments)]\n"@) + line(
        depth + 1,
        "pub const fn new("@,
        listed(Listing::Parameters, class),
        ") -> Self {\n"@,
    ) + line(depth + 2, "Self { elements: ["@, listed(Listing::Components, class), "] }\n"@)
        + indented(depth + 1, "}\n"@)
}

/// The constructor of the class from its groups.
#[verifier::opaque]
pub open spec fn group_constructor(class: MultiVectorClass, depth: nat) -> Seq<char> {
    line(
        depth + 1,
        "pub const fn from_groups("@,
        grouped(Grouping::Parameters, class, depth),
        ") -> Self {\n"@,
    ) + line(depth + 2, "Self { groups: "@, class.class_name@, "Groups { "@) + grouped(
        Grouping::Names,
        class,
        depth,
    ) + " } }\n"@ + indented(depth + 1, "}\n"@)
}

/// The functions of the class itself: its constructors and what gives its groups.
#[verifier::opaque]
pub open spec fn inherent_functions(class: MultiVectorClass, depth: nat) -> Seq<char> {
    line(depth, "impl "@, class.class_name@, " {\n"@) + component_constructor(class, depth)
        + group_constructor(class, depth) + grouped(Grouping::Accessors, class, depth) + indented(
        depth,
        "}\n\n"@,
    )
}

/// The name of the table that gives the lane of each element.
pub open spec fn remap_name(class: MultiVectorClass) -> Seq<char> {
    spec_upper_case(class.class_name@) + "_INDEX_REMAP"@
}

/// The table that gives the lane of each element.
#[verifier::opaque]
pub open spec fn remap_table(class: MultiVectorClass, depth: nat) -> Seq<char> {
    line(depth, "const "@, remap_name(class), ": [usize; "@) + decimal(element_count(class))
        + "] = ["@ + listed(Listing::Lanes, class) + "];\n\n"@
}

/// The element of the class at an index, to read.
#[verifier::opaque]
pub open spec fn index_reader(class: MultiVectorClass, depth: nat) -> Seq<char> {
    line(depth, "impl std::ops::Index<usize> for "@, class.class_name@, " {\n"@) + indented(
        depth + 1,
        "type Output = f32;\n\n"@,
    ) + indented(depth + 1, "fn index(&self, index: usize) -> &Self::Output {\n"@) + line(
        depth + 2,
        "unsafe { &self.elements["@,
        remap_name(class),
        "[index]] }\n"@,
    ) + indented(depth + 1, "}\n"@) + indented(depth, "}\n\n"@)
}

/// The element of the class at an index, to change.
#[verifier::opaque]
pub open spec fn index_writer(class: MultiVectorClass, depth: nat) -> Seq<char> {
    line(depth, "impl std::ops::IndexMut<usize> for "@, class.class_name@, " {\n"@) + indented(
        depth + 1,
        "fn index_mut(&mut self, index: usize) -> &mut Self::Output {\n"@,
    ) + line(depth + 2, "unsafe { &mut self.elements["@, remap_name(class), "[index]] }\n"@)
        + indented(depth + 1, "}\n"@) + indented(depth, "}\n\n"@)
}

/// The conversion of the class into the array of its elements.
#[verifier::opaque]
pub open spec fn into_array(class: MultiVectorClass, depth: nat) -> Seq<char> {
    line(depth, "impl std::convert::From<"@, class.class_name@, "> for [f32; "@) + decimal(
        element_count(class),
    ) + "] {\n"@ + line(depth + 1, "fn from(vector: "@, class.class_name@, ") -> Self {\n"@) + line(
        depth + 2,
        "unsafe { ["@,
        listed(Listing::Stored, class),
        "] }\n"@,
    ) + indented(depth + 1, "}\n"@) + indented(depth, "}\n\n"@)
}

/// The conversion of the array of its elements into the class.
#[verifier::opaque]
pub open spec fn from_array(class: MultiVectorClass, depth: nat) -> Seq<char> {
    line(
        depth,
        "impl std::convert::From<[f32; "@,
        decimal(element_count(class)),
        "]> for "@,
    ) + class.class_name@ + " {\n"@ + line(
        depth + 1,
        "fn from(array: [f32; "@,
        decimal(element_count(class)),
        "]) -> Self {\n"@,
    ) + line(depth + 2, "Self { elements: ["@, listed(Listing::Read, class), "] }\n"@) + indented(
        depth + 1,
        "}\n"@,
    ) + indented(depth, "}\n\n"@)
}

/// The printing of the class as a structure of named elements.
#[verifier::opaque]
pub open spec fn printing(class: MultiVectorClass, depth: nat) -> Seq<char> {
    line(depth, "impl std::fmt::Debug for "@, class.class_name@, " {\n"@) + indented(
        depth + 1,
        "fn fmt(&self, formatter: &mut std::fmt::Formatter) -> std::fmt::Result {\n"@,
    ) + indented(depth + 2, "formatter\n"@) + line(
        depth + 3,
        ".debug_struct(\""@,
        class.class_name@,
        "\")\n"@,
    ) + grouped(Grouping::Entries, class, depth) + indented(depth + 3, ".finish()\n"@) + indented(
        depth + 1,
        "}\n"@,
    ) + indented(depth, "}\n\n"@)
}

/// The definition of a class at the given depth.
pub open spec fn class_definition(class: MultiVectorClass, depth: nat) -> Seq<char> {
    groups_record(class, depth) + lanes_union(class, depth) + inherent_functions(class, depth)
        + remap_table(class, depth) + index_reader(class, depth) + index_writer(class, depth)
        + into_array(class, depth) + from_array(class, depth) + printing(class, depth)
}

/// Whether no group of the class is empty.
pub open spec fn has_no_empty_group(class: MultiVectorClass) -> bool {
    forall|j: int|
        0 <= j < class.grouped_basis@.len() ==> (#[trigger] class.grouped_basis@[j])@.len() > 0
}

/// Whether a class can be defined at the given depth: no group is empty, no element
/// is cancelled, and its lanes and the depth of what the definition holds are machine
/// numbers.
pub open spec fn class_definable(class: MultiVectorClass, depth: nat) -> bool {
    &&& depth + 3 <= usize::MAX
    &&& has_no_empty_group(class)
    &&& has_components(class)
    &&& measurable(class)
}

/// Whether no group of the class is empty and no element is cancelled.
fn is_populated(class: &MultiVectorClass) -> (populated: bool)
    ensures
        populated == (has_no_empty_group(*class) && has_components(*class)),
{
    let mut j: usize = 0;
    while j < class.grouped_basis.len()
        invariant
            j <= class.grouped_basis.len(),
            forall|k: int| 0 <= k < j ==> (#[trigger] class.grouped_basis@[k])@.len() > 0,
            forall|k: int, i: int|
                0 <= k < j && 0 <= i < class.grouped_basis@[k]@.len()
                    ==> #[trigger] class.grouped_basis@[k]@[i].scalar != 0,
        decreases class.grouped_basis.len() - j,
    {
        let group = &class.grouped_basis[j];
        if group.len() == 0 {
            return false;
        }
        let mut i: usize = 0;
        while i < group.len()
            invariant
                i <= group.len(),
                j < class.grouped_basis.len(),
                group@ == class.grouped_basis@[j as int]@,
                forall|l: int| 0 <= l < i ==> (#[trigger] group@[l]).scalar != 0,
            decreases group.len() - i,
        {
            if group[i].scalar == 0 {
                assert(class.grouped_basis@[j as int]@[i as int].scalar == 0);
                return false;
            }
            i += 1;
        }
        j += 1;
    }
    true
}

/// Appends the record of the groups.
fn emit_groups_record(collector: &mut String, class: &MultiVectorClass, layout: &Layout, depth: usize)
    requires
        layout.of(*class),
        depth + 3 <= usize::MAX,
    ensures
        final(collector)@ == old(collector)@ + groups_record(*class, depth as nat),
{
    let name = class.class_name.as_str();
    push_line(collector, depth, "#[derive(Clone, Copy)]\nstruct ", name, "Groups {\n");
    push_grouped(collector, Grouping::Fields, class, layout, depth);
    collector.append("}\n\n");
    proof {
        reveal(groups_record);
    }
    assert(collector@ =~= old(collector)@ + groups_record(*class, depth as nat));
}

/// Appends the union over the lanes.
fn emit_lanes_union(collector: &mut String, class: &MultiVectorClass, layout: &Layout, depth: usize)
    requires
        layout.of(*class),
        has_components(*class),
        depth + 3 <= usize::MAX,
    ensures
        final(collector)@ == old(collector)@ + lanes_union(*class, depth as nat),
{
    let name = class.class_name.as_str();
    let names = listed_text(Listing::Names, class, layout);
    let lanes = number_text(layout.lanes);
    push_line(collector, depth, "#[derive(Clone, Copy)]\npub union ", name, " {\n");
    push_line(collector, depth + 1, "groups: ", name, "Groups,\n");
    push_line(collector, depth + 1, "/// ", names.as_str(), "\n");
    push_line(collector, depth + 1, "elements: [f32; ", lanes.as_str(), "],\n");
    push_indented(collector, depth, "}\n\n");
    proof {
        reveal(lanes_union);
    }
    assert(collector@ =~= old(collector)@ + lanes_union(*class, depth as nat));
}

/// Appends the constructor of the class from its components.
fn emit_component_constructor(
    collector: &mut String,
    class: &MultiVectorClass,
    layout: &Layout,
    depth: usize,
)
    requires
        layout.of(*class),
        has_components(*class),
        depth + 3 <= usize::MAX,
    ensures
        final(collector)@ == old(collector)@ + component_constructor(*class, depth as nat),
{
    let parameters = listed_text(Listing::Parameters, class, layout);
    let components = listed_text(Listing::Components, class, layout);
    push_indented(collector, depth + 1, "#[allow(clippy::too_many_arguments)]\n");
    push_line(collector, depth + 1, "pub const fn new(", parameters.as_str(), ") -> Self {\n");
    push_line(collector, depth + 2, "Self { elements: [", components.as_str(), "] }\n");
    push_indented(collector, depth + 1, "}\n");
    proof {
        reveal(component_constructor);
    }
    assert(collector@ =~= old(collector)@ + component_constructor(*class, depth as nat));
}

/// Appends the constructor of the class from its groups.
fn emit_group_constructor(
    collector: &mut String,
    class: &MultiVectorClass,
    layout: &Layout,
    depth: usize,
)
    requires
        layout.of(*class),
        depth + 3 <= usize::MAX,
    ensures
        final(collector)@ == old(collector)@ + group_constructor(*class, depth as nat),
{
    let name = class.class_name.as_str();
    let parameters = grouped_text(Grouping::Parameters, class, layout, depth);
    push_line(collector, depth + 1, "pub const fn from_groups(", parameters.as_str(), ") -> Self {\n");
    push_line(collector, depth + 2, "Self { groups: ", name, "Groups { ");
    push_grouped(collector, Grouping::Names, class, layout, depth);
    collector.append(" } }\n");
    push_indented(collector, depth + 1, "}\n");
    proof {
        reveal(group_constructor);
    }
    assert(collector@ =~= old(collector)@ + group_constructor(*class, depth as nat));
}

/// Appends the functions of the class itself.
fn emit_inherent_functions(
    collector: &mut String,
    class: &MultiVectorClass,
    layout: &Layout,
    depth: usize,
)
    requires
        layout.of(*class),
        has_components(*class),
        depth + 3 <= usize::MAX,
    ensures
        final(collector)@ == old(collector)@ + inherent_functions(*class, depth as nat),
{
    push_line(collector, depth, "impl ", class.class_name.as_str(), " {\n");
    emit_component_constructor(collector, class, layout, depth);
    emit_group_constructor(collector, class, layout, depth);
    push_grouped(collector, Grouping::Accessors, class, layout, depth);
    push_indented(collector, depth, "}\n\n");
    proof {
        reveal(inherent_functions);
    }
    assert(collector@ =~= old(collector)@ + inherent_functions(*class, depth as nat));
}

/// The name of the table that gives the lane of each element.
fn remap_name_text(class: &MultiVectorClass) -> (name: String)
    ensures
        name@ == remap_name(*class),
{
    let mut name = String::new();
    push_upper_case(&mut name, class.class_name.as_str());
    name.append("_INDEX_REMAP");
    assert(name@ =~= remap_name(*class));
    name
}

/// Appends the table that gives the lane of each element.
fn emit_remap_table(collector: &mut String, class: &MultiVectorClass, layout: &Layout, depth: usize)
    requires
        layout.of(*class),
        has_components(*class),
        depth + 3 <= usize::MAX,
    ensures
        final(collector)@ == old(collector)@ + remap_table(*class, depth as nat),
{
    let table = remap_name_text(class);
    push_line(collector, depth, "const ", table.as_str(), ": [usize; ");
    push_number(collector, layout.elements);
    collector.append("] = [");
    push_listed(collector, Listing::Lanes, class, layout);
    collector.append("];\n\n");
    proof {
        reveal(remap_table);
    }
    assert(collector@ =~= old(collector)@ + remap_table(*class, depth as nat));
}

/// Appends what gives the element of the class at an index, to read.
fn emit_index_reader(collector: &mut String, class: &MultiVectorClass, depth: usize)
    requires
        depth + 3 <= usize::MAX,
    ensures
        final(collector)@ == old(collector)@ + index_reader(*class, depth as nat),
{
    let table = remap_name_text(class);
    push_line(collector, depth, "impl std::ops::Index<usize> for ", class.class_name.as_str(), " {\n");
    push_indented(collector, depth + 1, "type Output = f32;\n\n");
    push_indented(collector, depth + 1, "fn index(&self, index: usize) -> &Self::Output {\n");
    push_line(collector, depth + 2, "unsafe { &self.elements[", table.as_str(), "[index]] }\n");
    push_indented(collector, depth + 1, "}\n");
    push_indented(collector, depth, "}\n\n");
    proof {
        reveal(index_reader);
    }
    assert(collector@ =~= old(collector)@ + index_reader(*class, depth as nat));
}

/// Appends what gives the element of the class at an index, to change.
fn emit_index_writer(collector: &mut String, class: &MultiVectorClass, depth: usize)
    requires
        depth + 3 <= usize::MAX,
    ensures
        final(collector)@ == old(collector)@ + index_writer(*class, depth as nat),
{
    let table = remap_name_text(class);
    push_line(
        collector,
        depth,
        "impl std::ops::IndexMut<usize> for ",
        class.class_name.as_str(),
        " {\n",
    );
    push_indented(
        collector,
        depth + 1,
        "fn index_mut(&mut self, index: usize) -> &mut Self::Output {\n",
    );
    push_line(collector, depth + 2, "unsafe { &mut self.elements[", table.as_str(), "[index]] }\n");
    push_indented(collector, depth + 1, "}\n");
    push_indented(collector, depth, "}\n\n");
    proof {
        reveal(index_writer);
    }
    assert(collector@ =~= old(collector)@ + index_writer(*class, depth as nat));
}

/// Appends the conversion of the class into the array of its elements.
fn emit_into_array(collector: &mut String, class: &MultiVectorClass, layout: &Layout, depth: usize)
    requires
        layout.of(*class),
        has_components(*class),
        depth + 3 <= usize::MAX,
    ensures
        final(collector)@ == old(collector)@ + into_array(*class, depth as nat),
{
    let name = class.class_name.as_str();
    let stored = listed_text(Listing::Stored, class, layout);
    push_line(collector, depth, "impl std::convert::From<", name, "> for [f32; ");
    push_number(collector, layout.elements);
    collector.append("] {\n");
    push_line(collector, depth + 1, "fn from(vector: ", name, ") -> Self {\n");
    push_line(collector, depth + 2, "unsafe { [", stored.as_str(), "] }\n");
    push_indented(collector, depth + 1, "}\n");
    push_indented(collector, depth, "}\n\n");
    proof {
        reveal(into_array);
    }
    assert(collector@ =~= old(collector)@ + into_array(*class, depth as nat));
}

/// Appends the conversion of the array of its elements into the class.
fn emit_from_array(collector: &mut String, class: &MultiVectorClass, layout: &Layout, depth: usize)
    requires
        layout.of(*class),
        has_components(*class),
        depth + 3 <= usize::MAX,
    ensures
        final(collector)@ == old(collector)@ + from_array(*class, depth as nat),
{
    let count = number_text(layout.elements);
    let read = listed_text(Listing::Read, class, layout);
    push_line(collector, depth, "impl std::convert::From<[f32; ", count.as_str(), "]> for ");
    collector.append(class.class_name.as_str());
    collector.append(" {\n");
    push_line(collector, depth + 1, "fn from(array: [f32; ", count.as_str(), "]) -> Self {\n");
    push_line(collector, depth + 2, "Self { elements: [", read.as_str(), "] }\n");
    push_indented(collector, depth + 1, "}\n");
    push_indented(collector, depth, "}\n\n");
    proof {
        reveal(from_array);
    }
    assert(collector@ =~= old(collector)@ + from_array(*class, depth as nat));
}

/// Appends the printing of the class.
fn emit_printing(collector: &mut String, class: &MultiVectorClass, layout: &Layout, depth: usize)
    requires
        layout.of(*class),
        depth + 3 <= usize::MAX,
    ensures
        final(collector)@ == old(collector)@ + printing(*class, depth as nat),
{
    let name = class.class_name.as_str();
    push_line(collector, depth, "impl std::fmt::Debug for ", name, " {\n");
    push_indented(
        collector,
        depth + 1,
        "fn fmt(&self, formatter: &mut std::fmt::Formatter) -> std::fmt::Result {\n",
    );
    push_indented(collector, depth + 2, "formatter\n");
    push_line(collector, depth + 3, ".debug_struct(\"", name, "\")\n");
    push_grouped(collector, Grouping::Entries, class, layout, depth);
    push_indented(collector, depth + 3, ".finish()\n");
    push_indented(collector, depth + 1, "}\n");
    push_indented(collector, depth, "}\n\n");
    proof {
        reveal(printing);
    }
    assert(collector@ =~= old(collector)@ + printing(*class, depth as nat));
}

/// Appends the definition of a class; `indentation` is the depth at which it stands.
/// Fails, and appends nothing, where the class cannot be defined.
pub fn emit_class_definition(collector: &mut String, class: &MultiVectorClass, indentation: usize) -> (result:
    Result<(), Malformed>)
    ensures
        match result {
            Ok(_) => class_definable(*class, indentation as nat) && final(collector)@ == old(collector)@ + class_definition(*class, indentation as nat),
            Err(_) => !class_definable(*class, indentation as nat) && final(collector)@ == old(collector)@,
        },
{
    if indentation > usize::MAX - 3 || !is_populated(class) {
        return Err(Malformed);
    }
    match measure(class) {
        Some(layout) => {
            emit_groups_record(collector, class, &layout, indentation);
            emit_lanes_union(collector, class, &layout, indentation);
            emit_inherent_functions(collector, class, &layout, indentation);
            emit_remap_table(collector, class, &layout, indentation);
            emit_index_reader(collector, class, indentation);
            emit_index_writer(collector, class, indentation);
            emit_into_array(collector, class, &layout, indentation);
            emit_from_array(collector, class, &layout, indentation);
            emit_printing(collector, class, &layout, indentation);
            Ok(())
        },
        None => Err(Malformed),
    }
}

} // verus!
