//! The multiplication table of an algebra as text.

use vstd::prelude::*;
use vstd::string::{StrSliceExecFns, StringExecFns};
use crate::algebra::{
    lemma_basis_valid, spec_basis, spec_product, strictly_ordered, BasisElement, GeometricAlgebra,
};
use crate::emit::{concatenated, lemma_joined_push};
use crate::names::spec_name;

verus! {

/// A text after as many spaces as it lacks to the given width.
pub open spec fn right_aligned(text: Seq<char>, width: nat) -> Seq<char> {
    if text.len() >= width {
        text
    } else {
        Seq::new((width - text.len()) as nat, |i: int| ' ') + text
    }
}

/// The cells of the row of `right`: the products of each element with `right`, each
/// aligned to the right in two places more than there are generators, and a space.
pub open spec fn table_cells(elements: Seq<BasisElement>, right: BasisElement, squares: Seq<isize>) -> Seq<
    Seq<char>,
> {
    Seq::new(
        elements.len(),
        |i: int|
            right_aligned(spec_name(spec_product(elements[i], right, squares)), squares.len() + 2)
                + seq![' '],
    )
}

/// The rows of the table, one for each element as the right factor.
pub open spec fn table_rows(elements: Seq<BasisElement>, squares: Seq<isize>) -> Seq<Seq<char>> {
    Seq::new(
        elements.len(),
        |j: int| concatenated(table_cells(elements, elements[j], squares)) + seq!['\n'],
    )
}

/// The multiplication table of the elements: row by row, each row a line.
pub open spec fn spec_table(elements: Seq<BasisElement>, squares: Seq<isize>) -> Seq<char> {
    concatenated(table_rows(elements, squares))
}

/// Appends a text after as many spaces as it lacks to the given width.
fn push_right_aligned(collector: &mut String, text: &str, width: usize)
    ensures
        final(collector)@ == old(collector)@ + right_aligned(text@, width as nat),
{
    let length: usize = text.unicode_len();
    if length < width {
        let missing: usize = width - length;
        let mut i: usize = 0;
        assert(collector@ =~= old(collector)@ + Seq::new(0, |i: int| ' '));
        while i < missing
            invariant
                i <= missing,
                collector@ == old(collector)@ + Seq::new(i as nat, |i: int| ' '),
            decreases missing - i,
        {
            proof {
                reveal_strlit(" ");
            }
            collector.append(" ");
            assert(collector@ =~= old(collector)@ + Seq::new((i + 1) as nat, |i: int| ' '));
            i += 1;
        }
    }
    collector.append(text);
    assert(collector@ =~= old(collector)@ + right_aligned(text@, width as nat));
}

/// Appends the row of `right`.
fn push_row(
    collector: &mut String,
    algebra: &GeometricAlgebra,
    elements: &Vec<BasisElement>,
    right: &BasisElement,
)
    requires
        algebra.well_formed(),
        right.valid_in(algebra.dimension()),
        forall|i: int| 0 <= i < elements@.len() ==> (#[trigger] elements@[i]).valid_in(
            algebra.dimension(),
        ),
    ensures
        final(collector)@ == old(collector)@ + concatenated(
            table_cells(elements@, *right, algebra.generator_squares@),
        ) + seq!['\n'],
{
    let ghost cells = table_cells(elements@, *right, algebra.generator_squares@);
    let width: usize = algebra.generator_squares.len() + 2;
    let mut i: usize = 0;
    assert(collector@ =~= old(collector)@ + concatenated(cells.take(0)));
    while i < elements.len()
        invariant
            i <= elements.len(),
            algebra.well_formed(),
            right.valid_in(algebra.dimension()),
            forall|i: int| 0 <= i < elements@.len() ==> (#[trigger] elements@[i]).valid_in(
                algebra.dimension(),
            ),
            width == algebra.generator_squares@.len() + 2,
            cells == table_cells(elements@, *right, algebra.generator_squares@),
            collector@ == old(collector)@ + concatenated(cells.take(i as int)),
        decreases elements.len() - i,
    {
        let ghost before = collector@;
        let product = BasisElement::product(&elements[i], right, algebra);
        push_right_aligned(collector, product.to_string().as_str(), width);
        collector.append(" ");
        proof {
            reveal_strlit(" ");
            assert(collector@ =~= before + cells[i as int]);
            assert(cells.take(i as int + 1) =~= cells.take(i as int).push(cells[i as int]));
            lemma_joined_push(cells.take(i as int), Seq::empty(), cells[i as int]);
            assert(collector@ =~= old(collector)@ + concatenated(cells.take(i as int + 1)));
        }
        i += 1;
    }
    assert(cells.take(elements.len() as int) =~= cells);
    proof {
        reveal_strlit("\n");
    }
    collector.append("\n");
}

/// The multiplication table of the given elements of an algebra.
pub fn table_of(algebra: &GeometricAlgebra, elements: &Vec<BasisElement>) -> (text: String)
    requires
        algebra.well_formed(),
        forall|i: int| 0 <= i < elements@.len() ==> (#[trigger] elements@[i]).valid_in(
            algebra.dimension(),
        ),
    ensures
        text@ == spec_table(elements@, algebra.generator_squares@),
{
    let ghost rows = table_rows(elements@, algebra.generator_squares@);
    let mut text = String::new();
    let mut j: usize = 0;
    assert(text@ =~= concatenated(rows.take(0)));
    while j < elements.len()
        invariant
            j <= elements.len(),
            algebra.well_formed(),
            forall|i: int| 0 <= i < elements@.len() ==> (#[trigger] elements@[i]).valid_in(
                algebra.dimension(),
            ),
            rows == table_rows(elements@, algebra.generator_squares@),
            text@ == concatenated(rows.take(j as int)),
        decreases elements.len() - j,
    {
        let ghost before = text@;
        push_row(&mut text, algebra, elements, &elements[j]);
        proof {
            assert(text@ =~= before + rows[j as int]);
            assert(rows.take(j as int + 1) =~= rows.take(j as int).push(rows[j as int]));
            lemma_joined_push(rows.take(j as int), Seq::empty(), rows[j as int]);
            assert(text@ =~= concatenated(rows.take(j as int + 1)));
        }
        j += 1;
    }
    assert(rows.take(elements.len() as int) =~= rows);
    text
}

impl<'a> GeometricAlgebra<'a> {
    /// The multiplication table of the algebra, over its basis in ascending order.
    pub fn multiplication_table(&self) -> (text: String)
        requires
            self.well_formed(),
        ensures
            exists|basis: Seq<BasisElement>|
                {
                    &&& strictly_ordered(basis)
                    &&& basis.to_multiset() == spec_basis(self.dimension()).to_multiset()
                    &&& text@ == #[trigger] spec_table(basis, self.generator_squares@)
                },
    {
        let basis = self.sorted_basis();
        proof {
            lemma_basis_valid(self.dimension());
            assert forall|i: int| 0 <= i < basis@.len() implies (#[trigger] basis@[i]).valid_in(
                self.dimension(),
            ) by {
                assert(basis@.to_multiset().count(basis@[i]) > 0) by {
                    basis@.to_multiset_ensures();
                }
                spec_basis(self.dimension()).to_multiset_ensures();
                assert(spec_basis(self.dimension()).contains(basis@[i]));
            }
        }
        table_of(self, &basis)
    }
}

} // verus!
