//! Multivector classes and the registry that finds a class by its signature.

use vstd::prelude::*;
use vstd::relations::{sorted_by, total_ordering};
use vstd::seq_lib::{lemma_flatten_concat, lemma_sorted_unique};
use crate::algebra::{BasisElement, BasisElementIndex};

verus! {

/// A named set of basis elements, laid out in groups. The length of a group is the
/// number of lanes that it takes in the generated code.
#[derive(PartialEq, Eq, Debug)]
pub struct MultiVectorClass {
    pub class_name: String,
    pub grouped_basis: Vec<Vec<BasisElement>>,
}

/// The declared classes, in the order of their declaration, each kept with its signature.
pub struct MultiVectorClassRegistry {
    pub classes: Vec<MultiVectorClass>,
    pub signatures: Vec<Vec<BasisElementIndex>>,
}

/// The order of indices within a signature.
pub open spec fn index_leq() -> spec_fn(u16, u16) -> bool {
    |a: u16, b: u16| a <= b
}

/// A sequence of indices in ascending order.
pub open spec fn sorted_indices(indices: Seq<u16>) -> Seq<u16> {
    indices.sort_by(index_leq())
}

/// The indices of a sequence of elements.
pub open spec fn indices_of(elements: Seq<BasisElement>) -> Seq<u16> {
    elements.map_values(|element: BasisElement| element.index)
}

/// The sequence without the repetitions of an index: each index where it first occurs.
pub open spec fn without_repetitions(indices: Seq<u16>) -> Seq<u16>
    decreases indices.len(),
{
    if indices.len() == 0 {
        Seq::empty()
    } else {
        let before = without_repetitions(indices.drop_last());
        if before.contains(indices.last()) {
            before
        } else {
            before.push(indices.last())
        }
    }
}

/// Where among the elements an index first occurs.
pub open spec fn first_position(elements: Seq<BasisElement>, index: u16) -> Option<int>
    decreases elements.len(),
{
    if elements.len() == 0 {
        None
    } else {
        match first_position(elements.drop_last(), index) {
            Some(position) => Some(position),
            None => if elements.last().index == index {
                Some(elements.len() - 1)
            } else {
                None
            },
        }
    }
}

/// Whether every scalar is `-1`, `0` or `+1`.
pub open spec fn unit_scalars(elements: Seq<BasisElement>) -> bool {
    forall|i: int| 0 <= i < elements.len() ==> -1 <= (#[trigger] elements[i]).scalar <= 1
}

/// The group and the lane at which the element with position `index` of the flat basis
/// stands.
pub open spec fn place_of(groups: Seq<Seq<BasisElement>>, index: int) -> (usize, usize)
    decreases groups.len(),
{
    if groups.len() == 0 {
        (0, 0)
    } else if group_offset(groups, groups.len() - 1) <= index {
        ((groups.len() - 1) as usize, (index - group_offset(groups, groups.len() - 1)) as usize)
    } else {
        place_of(groups.drop_last(), index)
    }
}

/// The number of elements in the groups before group `group`.
pub open spec fn group_offset(groups: Seq<Seq<BasisElement>>, group: int) -> nat {
    groups.take(group).flatten().len()
}

/// The order of indices is a total order.
pub proof fn lemma_index_leq_total()
    ensures
        total_ordering(index_leq()),
{
    let leq = index_leq();
    assert(vstd::relations::reflexive(leq));
    assert(vstd::relations::antisymmetric(leq));
    assert(vstd::relations::transitive(leq));
    assert(vstd::relations::strongly_connected(leq));
}

/// `first_position` finds an occurrence and none lies before it; it finds none only
/// where there is none.
pub proof fn lemma_first_position(elements: Seq<BasisElement>, index: u16)
    ensures
        match first_position(elements, index) {
            Some(position) => {
                &&& 0 <= position < elements.len()
                &&& elements[position].index == index
                &&& forall|j: int| 0 <= j < position ==> elements[j].index != index
            },
            None => forall|j: int| 0 <= j < elements.len() ==> elements[j].index != index,
        },
    decreases elements.len(),
{
    if elements.len() > 0 {
        let front = elements.drop_last();
        lemma_first_position(front, index);
        assert forall|j: int| 0 <= j < front.len() implies front[j] == elements[j] by {}
        match first_position(front, index) {
            Some(position) => {
                assert(front[position] == elements[position]);
            },
            None => {
                assert forall|j: int| 0 <= j < elements.len() - 1 implies elements[j].index
                    != index by {
                    assert(front[j].index != index);
                }
            },
        }
    }
}

/// The first occurrence is what `first_position` finds.
pub proof fn lemma_first_position_is(elements: Seq<BasisElement>, index: u16, position: int)
    requires
        0 <= position < elements.len(),
        elements[position].index == index,
        forall|j: int| 0 <= j < position ==> elements[j].index != index,
    ensures
        first_position(elements, index) == Some(position),
{
    lemma_first_position(elements, index);
}

/// Each group lies in the flat basis at its offset.
pub proof fn lemma_group_in_flat(groups: Seq<Seq<BasisElement>>, group: int, lane: int)
    requires
        0 <= group < groups.len(),
        0 <= lane < groups[group].len(),
    ensures
        group_offset(groups, group) + lane < groups.flatten().len(),
        groups.flatten()[group_offset(groups, group) + lane] == groups[group][lane],
        group_offset(groups, group + 1) == group_offset(groups, group) + groups[group].len(),
{
    let head = groups.take(group);
    let tail = groups.skip(group + 1);
    assert(groups.take(group + 1) =~= head.push(groups[group]));
    head.lemma_flatten_push(groups[group]);
    assert(groups =~= groups.take(group + 1) + tail);
    lemma_flatten_concat(groups.take(group + 1), tail);
}

/// Later groups start later.
pub proof fn lemma_group_offset_grows(groups: Seq<Seq<BasisElement>>, earlier: int, later: int)
    requires
        0 <= earlier <= later <= groups.len(),
    ensures
        group_offset(groups, earlier) <= group_offset(groups, later),
    decreases later - earlier,
{
    if earlier < later {
        lemma_group_offset_grows(groups, earlier, later - 1);
        assert(groups.take(later) =~= groups.take(later - 1).push(groups[later - 1]));
        groups.take(later - 1).lemma_flatten_push(groups[later - 1]);
    }
}

/// `place_of` finds the group and the lane of every element.
pub proof fn lemma_place_of(groups: Seq<Seq<BasisElement>>, group: int, lane: int)
    requires
        0 <= group < groups.len(),
        0 <= lane < groups[group].len(),
        groups.len() <= usize::MAX,
        groups[group].len() <= usize::MAX,
    ensures
        place_of(groups, group_offset(groups, group) + lane) == (group as usize, lane as usize),
    decreases groups.len(),
{
    let index = group_offset(groups, group) + lane;
    if group < groups.len() - 1 {
        lemma_group_in_flat(groups, group, lane);
        lemma_group_offset_grows(groups, group + 1, groups.len() - 1);
        let front = groups.drop_last();
        assert(front.take(group) =~= groups.take(group));
        lemma_place_of(front, group, lane);
    }
}

/// Every position of the flat basis has a group and a lane.
pub proof fn lemma_place_valid(groups: Seq<Seq<BasisElement>>, index: int)
    requires
        0 <= index < groups.flatten().len(),
        groups.len() <= usize::MAX,
        forall|g: int| 0 <= g < groups.len() ==> (#[trigger] groups[g]).len() <= usize::MAX,
    ensures
        place_of(groups, index).0 < groups.len(),
        place_of(groups, index).1 < groups[place_of(groups, index).0 as int].len(),
        group_offset(groups, place_of(groups, index).0 as int) + place_of(groups, index).1 == index,
        groups[place_of(groups, index).0 as int][place_of(groups, index).1 as int]
            == groups.flatten()[index],
    decreases groups.len(),
{
    lemma_all_groups(groups);
    if groups.len() > 0 {
        let last = groups.len() - 1;
        assert(groups.take(last + 1) =~= groups.take(last).push(groups[last]));
        groups.take(last).lemma_flatten_push(groups[last]);
        assert(groups.take(last + 1) =~= groups);
        if group_offset(groups, last) <= index {
            lemma_group_in_flat(groups, last, index - group_offset(groups, last));
        } else {
            let front = groups.drop_last();
            assert(front =~= groups.take(last));
            lemma_place_valid(front, index);
            let place = place_of(front, index);
            assert(front.take(place.0 as int) =~= groups.take(place.0 as int));
            lemma_group_in_flat(groups, place.0 as int, place.1 as int);
        }
    }
}

/// The groups before the last one hold what the whole holds.
pub proof fn lemma_all_groups(groups: Seq<Seq<BasisElement>>)
    ensures
        group_offset(groups, groups.len() as int) == groups.flatten().len(),
{
    assert(groups.take(groups.len() as int) =~= groups);
}

/// Whether the indices never descend.
pub open spec fn ascending(indices: Seq<u16>) -> bool {
    forall|i: int, j: int| 0 <= i < j < indices.len() ==> indices[i] <= indices[j]
}

/// Inserting a value adds it, once, to what a sequence holds.
pub proof fn lemma_insert_to_multiset<A>(before: Seq<A>, place: int, value: A)
    requires
        0 <= place <= before.len(),
    ensures
        before.insert(place, value).to_multiset() == before.to_multiset().insert(value),
{
    broadcast use vstd::seq_lib::group_to_multiset_ensures;

    let after = before.insert(place, value);
    before.insert_ensures(place, value);
    assert(after.remove(place) =~= before);
    assert(after.to_multiset().remove(value) == before.to_multiset());
    assert(after.to_multiset().count(value) > 0) by {
        assert(after[place] == value);
        assert(after.contains(value));
    }
    assert(after.to_multiset() =~= before.to_multiset().insert(value));
}

/// What a prefix holds once it is one longer.
pub proof fn lemma_take_to_multiset<A>(all: Seq<A>, taken: int)
    requires
        0 <= taken < all.len(),
    ensures
        all.take(taken + 1).to_multiset() == all.take(taken).to_multiset().insert(all[taken]),
{
    broadcast use vstd::seq_lib::group_to_multiset_ensures;

    assert(all.take(taken + 1) =~= all.take(taken).push(all[taken]));
}

proof fn lemma_insert_ascending(before: Seq<u16>, place: int, index: u16)
    requires
        0 <= place <= before.len(),
        ascending(before),
        forall|q: int| 0 <= q < place ==> before[q] <= index,
        place < before.len() ==> index < before[place],
    ensures
        ascending(before.insert(place, index)),
{
    let after = before.insert(place, index);
    before.insert_ensures(place, index);
    assert forall|i: int, j: int| 0 <= i < j < after.len() implies after[i] <= after[j] by {
        if j < place {
            assert(after[i] == before[i] && after[j] == before[j]);
        } else if j == place {
            assert(after[i] == before[i]);
        } else if i < place {
            assert(after[i] == before[i] && after[j] == before[j - 1]);
        } else if i == place {
            assert(after[j] == before[j - 1]);
            assert(before[place] <= before[j - 1]);
        } else {
            assert(after[i] == before[i - 1] && after[j] == before[j - 1]);
        }
    }
}

/// Sorts indices into ascending order; repeated indices stay repeated.
pub fn sort_indices(indices: &Vec<u16>) -> (sorted: Vec<u16>)
    ensures
        sorted@ == sorted_indices(indices@),
{
    let mut sorted: Vec<u16> = Vec::new();
    let mut taken: usize = 0;
    assert(indices@.take(0) =~= Seq::empty());
    while taken < indices.len()
        invariant
            taken <= indices.len(),
            ascending(sorted@),
            sorted@.to_multiset() == indices@.take(taken as int).to_multiset(),
        decreases indices.len() - taken,
    {
        let index = indices[taken];
        let ghost before = sorted@;
        let mut place: usize = 0;
        while place < sorted.len() && sorted[place] <= index
            invariant
                place <= sorted.len(),
                sorted@ == before,
                forall|q: int| 0 <= q < place ==> sorted@[q] <= index,
            decreases sorted.len() - place,
        {
            place += 1;
        }
        sorted.insert(place, index);
        proof {
            lemma_insert_ascending(before, place as int, index);
            lemma_insert_to_multiset(before, place as int, index);
            lemma_take_to_multiset(indices@, taken as int);
        }
        taken += 1;
    }
    proof {
        assert(indices@.take(indices.len() as int) =~= indices@);
        lemma_index_leq_total();
        indices@.lemma_sort_by_ensures(index_leq());
        assert(sorted_by(sorted@, index_leq())) by {
            assert forall|i: int, j: int| 0 <= i < j < sorted@.len() implies #[trigger] index_leq()(
                sorted@[i],
                sorted@[j],
            ) by {}
        }
        lemma_sorted_unique(sorted@, sorted_indices(indices@), index_leq());
    }
    sorted
}

/// Whether the index occurs among the indices.
pub fn contains_index(indices: &Vec<u16>, index: u16) -> (found: bool)
    ensures
        found == indices@.contains(index),
{
    let mut i: usize = 0;
    while i < indices.len()
        invariant
            i <= indices.len(),
            forall|j: int| 0 <= j < i ==> indices@[j] != index,
        decreases indices.len() - i,
    {
        if indices[i] == index {
            return true;
        }
        i += 1;
    }
    false
}

/// The indices without repetitions: each where it first occurs.
pub fn unique_indices(indices: &Vec<u16>) -> (unique: Vec<u16>)
    ensures
        unique@ == without_repetitions(indices@),
{
    let mut unique: Vec<u16> = Vec::new();
    let mut i: usize = 0;
    assert(indices@.take(0) =~= Seq::empty());
    while i < indices.len()
        invariant
            i <= indices.len(),
            unique@ == without_repetitions(indices@.take(i as int)),
        decreases indices.len() - i,
    {
        assert(indices@.take(i as int + 1).drop_last() =~= indices@.take(i as int));
        if !contains_index(&unique, indices[i]) {
            unique.push(indices[i]);
        }
        i += 1;
    }
    assert(indices@.take(indices.len() as int) =~= indices@);
    unique
}

/// Where among the elements the index first occurs.
pub fn position_of_index(elements: &Vec<BasisElement>, index: u16) -> (position: Option<usize>)
    ensures
        match position {
            Some(p) => first_position(elements@, index) == Some(p as int),
            None => first_position(elements@, index) is None,
        },
{
    let mut i: usize = 0;
    while i < elements.len()
        invariant
            i <= elements.len(),
            forall|j: int| 0 <= j < i ==> elements@[j].index != index,
        decreases elements.len() - i,
    {
        if elements[i].index == index {
            proof {
                lemma_first_position_is(elements@, index, i as int);
            }
            return Some(i);
        }
        i += 1;
    }
    proof {
        lemma_first_position(elements@, index);
    }
    None
}

/// Whether two lists of indices are the same.
pub fn same_indices(a: &Vec<u16>, b: &[u16]) -> (same: bool)
    ensures
        same == (a@ == b@),
{
    if a.len() != b.len() {
        return false;
    }
    let mut i: usize = 0;
    while i < a.len()
        invariant
            i <= a.len(),
            a.len() == b.len(),
            forall|j: int| 0 <= j < i ==> a@[j] == b@[j],
        decreases a.len() - i,
    {
        if a[i] != b[i] {
            return false;
        }
        i += 1;
    }
    assert(a@ =~= b@);
    true
}

impl MultiVectorClass {
    /// The groups of the class.
    pub open spec fn spec_groups(&self) -> Seq<Seq<BasisElement>> {
        self.grouped_basis@.map_values(|group: Vec<BasisElement>| group@)
    }

    /// The elements of all groups, in order.
    pub open spec fn spec_flat_basis(&self) -> Seq<BasisElement> {
        self.spec_groups().flatten()
    }

    /// The signature: the indices of the class in ascending order.
    pub open spec fn spec_signature(&self) -> Seq<u16> {
        sorted_indices(indices_of(self.spec_flat_basis()))
    }

    /// At least one group, no empty group, no index twice, and every scalar `-1`,
    /// `0` or `+1`.
    pub open spec fn well_formed(&self) -> bool {
        &&& self.spec_groups().len() >= 1
        &&& forall|g: int|
            0 <= g < self.spec_groups().len() ==> (#[trigger] self.spec_groups()[g]).len() >= 1
        &&& indices_of(self.spec_flat_basis()).no_duplicates()
        &&& unit_scalars(self.spec_flat_basis())
    }

    /// The elements of all groups, in order.
    pub fn flat_basis(&self) -> (flat: Vec<BasisElement>)
        ensures
            flat@ == self.spec_flat_basis(),
    {
        let ghost groups = self.spec_groups();
        let mut flat: Vec<BasisElement> = Vec::new();
        let mut g: usize = 0;
        assert(groups.take(0) =~= Seq::empty());
        while g < self.grouped_basis.len()
            invariant
                g <= self.grouped_basis.len(),
                groups == self.spec_groups(),
                flat@ == groups.take(g as int).flatten(),
            decreases self.grouped_basis.len() - g,
        {
            let group = &self.grouped_basis[g];
            let ghost before = flat@;
            let mut lane: usize = 0;
            while lane < group.len()
                invariant
                    lane <= group.len(),
                    flat@ == before + group@.take(lane as int),
                decreases group.len() - lane,
            {
                flat.push(group[lane]);
                assert(group@.take(lane as int + 1) =~= group@.take(lane as int).push(
                    group@[lane as int],
                ));
                lane += 1;
            }
            proof {
                assert(group@.take(group.len() as int) =~= group@);
                assert(groups.take(g as int + 1) =~= groups.take(g as int).push(group@));
                groups.take(g as int).lemma_flatten_push(group@);
            }
            g += 1;
        }
        assert(groups.take(groups.len() as int) =~= groups);
        flat
    }

    /// The signature of the class: its indices in ascending order.
    pub fn signature(&self) -> (signature: Vec<BasisElementIndex>)
        ensures
            signature@ == self.spec_signature(),
    {
        let flat = self.flat_basis();
        let mut indices: Vec<u16> = Vec::new();
        let mut i: usize = 0;
        while i < flat.len()
            invariant
                i <= flat.len(),
                indices@ == indices_of(flat@.take(i as int)),
            decreases flat.len() - i,
        {
            indices.push(flat[i].index);
            assert(indices@ =~= indices_of(flat@.take(i as int + 1)));
            i += 1;
        }
        assert(flat@.take(flat.len() as int) =~= flat@);
        sort_indices(&indices)
    }

    /// The group and the lane at which the element with the given position in the
    /// flat basis stands.
    pub fn index_in_group(&self, index: usize) -> (place: (usize, usize))
        requires
            index < self.spec_flat_basis().len(),
        ensures
            place.0 < self.spec_groups().len(),
            place.1 < self.spec_groups()[place.0 as int].len(),
            group_offset(self.spec_groups(), place.0 as int) + place.1 == index,
            self.spec_groups()[place.0 as int][place.1 as int] == self.spec_flat_basis()[index as int],
            place == place_of(self.spec_groups(), index as int),
    {
        let ghost groups = self.spec_groups();
        let mut remaining: usize = index;
        let mut g: usize = 0;
        assert(groups.take(0) =~= Seq::empty());
        while g < self.grouped_basis.len()
            invariant
                g <= self.grouped_basis.len(),
                groups == self.spec_groups(),
                index < groups.flatten().len(),
                group_offset(groups, g as int) + remaining == index,
            decreases self.grouped_basis.len() - g,
        {
            let length: usize = self.grouped_basis[g].len();
            if remaining >= length {
                proof {
                    if length > 0 {
                        lemma_group_in_flat(groups, g as int, 0);
                    } else {
                        assert(groups.take(g as int + 1) =~= groups.take(g as int).push(
                            groups[g as int],
                        ));
                        groups.take(g as int).lemma_flatten_push(groups[g as int]);
                    }
                }
                remaining -= length;
            } else {
                proof {
                    lemma_group_in_flat(groups, g as int, remaining as int);
                    lemma_place_of(groups, g as int, remaining as int);
                }
                return (g, remaining);
            }
            g += 1;
        }
        proof {
            lemma_all_groups(groups);
        }
        (0, 0)
    }
}

/// The position of the last class with the given signature.
pub open spec fn last_match(classes: Seq<MultiVectorClass>, signature: Seq<u16>) -> Option<int>
    decreases classes.len(),
{
    if classes.len() == 0 {
        None
    } else if classes.last().spec_signature() == signature {
        Some(classes.len() - 1)
    } else {
        last_match(classes.drop_last(), signature)
    }
}

/// `last_match` finds a class with the signature, and none with it comes later.
pub proof fn lemma_last_match(classes: Seq<MultiVectorClass>, signature: Seq<u16>)
    ensures
        match last_match(classes, signature) {
            Some(position) => {
                &&& 0 <= position < classes.len()
                &&& classes[position].spec_signature() == signature
                &&& forall|k: int|
                    position < k < classes.len() ==> (#[trigger] classes[k]).spec_signature()
                        != signature
            },
            None => forall|k: int|
                0 <= k < classes.len() ==> (#[trigger] classes[k]).spec_signature() != signature,
        },
    decreases classes.len(),
{
    if classes.len() > 0 && classes.last().spec_signature() != signature {
        let front = classes.drop_last();
        lemma_last_match(front, signature);
        assert forall|k: int| 0 <= k < front.len() implies front[k] == classes[k] by {}
        match last_match(front, signature) {
            Some(position) => {
                assert forall|k: int| position < k < classes.len() implies (
                #[trigger] classes[k]).spec_signature() != signature by {
                    if k < front.len() {
                        assert(front[k].spec_signature() != signature);
                    }
                }
            },
            None => {
                assert forall|k: int| 0 <= k < classes.len() implies (
                #[trigger] classes[k]).spec_signature() != signature by {
                    if k < front.len() {
                        assert(front[k].spec_signature() != signature);
                    }
                }
            },
        }
    }
}

impl MultiVectorClassRegistry {
    /// The signatures that the registry keeps, one for each class.
    pub open spec fn stored_signatures(&self) -> Seq<Seq<u16>> {
        self.signatures@.map_values(|signature: Vec<u16>| signature@)
    }

    /// The registry keeps, for each class, the signature of that class.
    pub open spec fn well_formed(&self) -> bool {
        &&& self.signatures@.len() == self.classes@.len()
        &&& forall|i: int|
            0 <= i < self.classes@.len() ==> (#[trigger] self.signatures@[i])@
                == self.classes@[i].spec_signature()
    }

    /// The position of the class that a signature finds. Where several classes were
    /// registered with one signature, it finds the last of them.
    pub open spec fn spec_find(&self, signature: Seq<u16>) -> Option<int> {
        last_match(self.classes@, signature)
    }

    /// The class that a signature finds.
    pub open spec fn spec_get(&self, signature: Seq<u16>) -> Option<MultiVectorClass> {
        match self.spec_find(signature) {
            Some(position) => Some(self.classes@[position]),
            None => None,
        }
    }

    /// The registry is well formed and so is every class in it.
    pub open spec fn valid(&self) -> bool {
        &&& self.well_formed()
        &&& forall|i: int| 0 <= i < self.classes@.len() ==> (#[trigger] self.classes@[i]).well_formed()
    }

    /// What a valid registry finds is a well-formed class of the registry.
    pub proof fn lemma_found_class(&self, signature: Seq<u16>)
        requires
            self.valid(),
        ensures
            self.spec_get(signature) matches Some(class) ==> class.well_formed()
                && class.spec_signature() == signature,
    {
        lemma_last_match(self.classes@, signature);
    }

    /// An empty registry.
    pub fn new() -> (registry: Self)
        ensures
            registry.well_formed(),
            registry.classes@.len() == 0,
    {
        Self { classes: Vec::new(), signatures: Vec::new() }
    }

    /// Adds a class after those registered before.
    pub fn register(&mut self, class: MultiVectorClass)
        requires
            old(self).well_formed(),
        ensures
            final(self).well_formed(),
            final(self).classes@ == old(self).classes@.push(class),
    {
        let signature = class.signature();
        self.signatures.push(signature);
        self.classes.push(class);
    }

    /// The class with exactly the given signature, if one was registered.
    pub fn get(&self, signature: &[BasisElementIndex]) -> (found: Option<&MultiVectorClass>)
        requires
            self.well_formed(),
        ensures
            match found {
                Some(class) => self.spec_get(signature@) == Some(*class),
                None => self.spec_get(signature@) is None,
            },
    {
        let mut remaining: usize = self.classes.len();
        assert(self.classes@.take(remaining as int) =~= self.classes@);
        while remaining > 0
            invariant
                remaining <= self.classes@.len(),
                self.well_formed(),
                last_match(self.classes@, signature@) == last_match(
                    self.classes@.take(remaining as int),
                    signature@,
                ),
            decreases remaining,
        {
            let position: usize = remaining - 1;
            proof {
                assert(self.classes@.take(remaining as int).drop_last() =~= self.classes@.take(
                    position as int,
                ));
                assert(self.classes@.take(remaining as int).last() == self.classes@[position as int]);
            }
            if same_indices(&self.signatures[position], signature) {
                return Some(&self.classes[position]);
            }
            remaining = position;
        }
        None
    }

    /// Every class is kept with its own signature, and that signature finds a class
    /// with the same signature: the class itself, unless a later one shares it.
    pub proof fn lemma_signature_round_trip(&self, position: int)
        requires
            self.well_formed(),
            0 <= position < self.classes@.len(),
        ensures
            self.stored_signatures().len() == self.classes@.len(),
            self.stored_signatures()[position] == self.classes@[position].spec_signature(),
            self.spec_find(self.classes@[position].spec_signature()) matches Some(found) && {
                &&& position <= found < self.classes@.len()
                &&& self.classes@[found].spec_signature()
                    == self.classes@[position].spec_signature()
                &&& (forall|k: int|
                    position < k < self.classes@.len() ==> (
                    #[trigger] self.classes@[k]).spec_signature()
                        != self.classes@[position].spec_signature()) ==> found == position
            },
    {
        lemma_last_match(self.classes@, self.classes@[position].spec_signature());
    }
}

impl Default for MultiVectorClassRegistry {
    fn default() -> (registry: Self)
        ensures
            registry.well_formed(),
            registry.classes@.len() == 0,
    {
        Self::new()
    }
}

/// Whether two classes are the same: they have the same name and the same groups.
pub open spec fn same_class(a: MultiVectorClass, b: MultiVectorClass) -> bool {
    a.class_name@ == b.class_name@ && a.spec_groups() == b.spec_groups()
}

/// Whether two lists of elements are the same.
pub fn same_elements(a: &Vec<BasisElement>, b: &Vec<BasisElement>) -> (same: bool)
    ensures
        same == (a@ == b@),
{
    if a.len() != b.len() {
        return false;
    }
    let mut i: usize = 0;
    while i < a.len()
        invariant
            i <= a.len(),
            a.len() == b.len(),
            forall|j: int| 0 <= j < i ==> a@[j] == b@[j],
        decreases a.len() - i,
    {
        if a[i].scalar != b[i].scalar || a[i].index != b[i].index {
            return false;
        }
        i += 1;
    }
    assert(a@ =~= b@);
    true
}

impl MultiVectorClass {
    /// Whether the other class has the same name and the same groups.
    pub fn same_as(&self, other: &MultiVectorClass) -> (same: bool)
        ensures
            same == same_class(*self, *other),
    {
        if !crate::tree::same_text(self.class_name.as_str(), other.class_name.as_str()) {
            return false;
        }
        if self.grouped_basis.len() != other.grouped_basis.len() {
            assert(self.spec_groups().len() != other.spec_groups().len());
            return false;
        }
        let mut j: usize = 0;
        while j < self.grouped_basis.len()
            invariant
                j <= self.grouped_basis.len(),
                self.grouped_basis.len() == other.grouped_basis.len(),
                forall|k: int| 0 <= k < j ==> self.spec_groups()[k] == other.spec_groups()[k],
            decreases self.grouped_basis.len() - j,
        {
            if !same_elements(&self.grouped_basis[j], &other.grouped_basis[j]) {
                assert(self.spec_groups()[j as int] != other.spec_groups()[j as int]);
                return false;
            }
            assert(self.spec_groups()[j as int] == other.spec_groups()[j as int]);
            j += 1;
        }
        assert(self.spec_groups() =~= other.spec_groups());
        true
    }
}

impl MultiVectorClass {
    /// Whether the class is well formed.
    pub fn is_well_formed(&self) -> (valid: bool)
        ensures
            valid == self.well_formed(),
    {
        let ghost groups = self.spec_groups();
        if self.grouped_basis.len() == 0 {
            return false;
        }
        let mut g: usize = 0;
        while g < self.grouped_basis.len()
            invariant
                g <= self.grouped_basis.len(),
                groups == self.spec_groups(),
                forall|k: int| 0 <= k < g ==> (#[trigger] groups[k]).len() >= 1,
            decreases self.grouped_basis.len() - g,
        {
            if self.grouped_basis[g].len() == 0 {
                assert(groups[g as int].len() == 0);
                return false;
            }
            g += 1;
        }
        let flat = self.flat_basis();
        let ghost indices = indices_of(flat@);
        let mut i: usize = 0;
        while i < flat.len()
            invariant
                i <= flat.len(),
                flat@ == self.spec_flat_basis(),
                indices == indices_of(flat@),
                forall|k: int| 0 <= k < i ==> -1 <= (#[trigger] flat@[k]).scalar <= 1,
                forall|k: int, l: int| 0 <= k < l < i ==> indices[k] != indices[l],
            decreases flat.len() - i,
        {
            if flat[i].scalar < -1 || flat[i].scalar > 1 {
                return false;
            }
            let mut j: usize = 0;
            while j < i
                invariant
                    j <= i < flat.len(),
                    flat@ == self.spec_flat_basis(),
                    indices == indices_of(flat@),
                    forall|k: int| 0 <= k < j ==> indices[k] != indices[i as int],
                decreases i - j,
            {
                if flat[j].index == flat[i].index {
                    assert(indices[j as int] == indices[i as int]);
                    assert(!indices.no_duplicates());
                    return false;
                }
                j += 1;
            }
            i += 1;
        }
        assert(indices.no_duplicates());
        true
    }
}

} // verus!
