use vstd::prelude::*;
use crate::basic_operations_trait::{scanned, BasicOperationsTrait};
use crate::elements::Elements;
use crate::flat::{flat_index, lemma_flat_bound};
use crate::float_trait::{is_mismatch, mismatch, obeys_arithmetic, zero, zero_value, FloatTrait};
use crate::into_matrix_trait::IntoMatrixTrait;
use crate::messages::{mismatch_message, mismatch_text};
use crate::position::Position;
use crate::shape::Shape;
use crate::square_matrix_trait::SquareMatrixTrait;
use crate::try_into_symmetric_compacted_matrix_trait::texts;

verus! {

/// A square matrix whose value at a position below the diagonal is the
/// value at its mirror image above it.
#[derive(PartialEq, Debug, Clone)]
pub struct SymmetricMatrix<V> {
    pub shape: Shape,
    pub elements: Elements<V>,
}

impl<V> BasicOperationsTrait for SymmetricMatrix<V> {
    type Value = V;

    open spec fn shape(&self) -> Shape {
        self.shape
    }

    open spec fn elements(&self) -> Map<Position, V> {
        self.elements@
    }

    fn get_shape(&self) -> (r: &Shape) {
        &self.shape
    }

    fn get_mut_shape(&mut self) -> (r: &mut Shape) {
        &mut self.shape
    }

    fn get_elements(&self) -> (r: &Elements<V>) {
        &self.elements
    }

    fn get_mut_elements(&mut self) -> (r: &mut Elements<V>) {
        &mut self.elements
    }
}

impl<V> IntoMatrixTrait for SymmetricMatrix<V> {

}

impl<V> SquareMatrixTrait for SymmetricMatrix<V> {

}

/// What a row-by-row listing gives for `position`: the listed value, or
/// zero where the listing ends before it.
pub open spec fn listed<V: FloatTrait>(values: Seq<V>, order: usize, position: Position) -> V {
    if flat_index(order as int, position) < values.len() {
        values[flat_index(order as int, position)]
    } else {
        zero::<V>()
    }
}

/// The symmetric matrix that a row-by-row listing describes: on and above
/// the diagonal the listed value, below it the listed value of the mirror
/// image.
pub open spec fn symmetric_from_flat<V: FloatTrait>(order: usize, values: Seq<V>) -> Map<
    Position,
    V,
> {
    Map::new(
        |p: Position| Shape(order, order).holds(p),
        |p: Position|
            if p.0 > p.1 {
                listed(values, order, p.swapped())
            } else {
                listed(values, order, p)
            },
    )
}

/// The messages for row `row` left of column `upto`: one for each listed
/// value below the diagonal that differs from the listed value of its
/// mirror image by more than the tolerance.
pub open spec fn row_mismatches<V: FloatTrait>(
    values: Seq<V>,
    order: usize,
    rel_tol: V,
    row: usize,
    upto: nat,
) -> Seq<Seq<char>>
    decreases upto,
{
    if upto == 0 {
        Seq::empty()
    } else {
        let earlier = row_mismatches(values, order, rel_tol, row, (upto - 1) as nat);
        let position = Position(row, (upto - 1) as usize);
        if position.0 > position.1 && mismatch(
            listed(values, order, position),
            listed(values, order, position.swapped()),
            rel_tol,
        ) {
            earlier.push(mismatch_text(position.0 as nat, position.1 as nat))
        } else {
            earlier
        }
    }
}

/// The messages for the first `rows` rows, row by row.
pub open spec fn mismatches<V: FloatTrait>(
    values: Seq<V>,
    order: usize,
    rel_tol: V,
    rows: nat,
) -> Seq<Seq<char>>
    decreases rows,
{
    if rows == 0 {
        Seq::empty()
    } else {
        mismatches(values, order, rel_tol, (rows - 1) as nat) + row_mismatches(
            values,
            order,
            rel_tol,
            (rows - 1) as usize,
            order as nat,
        )
    }
}

/// The messages of a longer part of a row begin with those of a shorter
/// part.
pub proof fn lemma_row_mismatches_grow<V: FloatTrait>(
    values: Seq<V>,
    order: usize,
    rel_tol: V,
    row: usize,
    fewer: nat,
    more: nat,
)
    requires
        fewer <= more,
    ensures
        row_mismatches(values, order, rel_tol, row, fewer).len() <= row_mismatches(
            values,
            order,
            rel_tol,
            row,
            more,
        ).len(),
        forall|i: int|
            0 <= i < row_mismatches(values, order, rel_tol, row, fewer).len() ==> row_mismatches(
                values,
                order,
                rel_tol,
                row,
                more,
            )[i] == row_mismatches(values, order, rel_tol, row, fewer)[i],
    decreases more,
{
    if fewer < more {
        lemma_row_mismatches_grow(values, order, rel_tol, row, fewer, (more - 1) as nat);
    }
}

/// The messages of more rows begin with those of fewer rows.
pub proof fn lemma_mismatches_grow<V: FloatTrait>(
    values: Seq<V>,
    order: usize,
    rel_tol: V,
    fewer: nat,
    more: nat,
)
    requires
        fewer <= more,
    ensures
        mismatches(values, order, rel_tol, fewer).len() <= mismatches(
            values,
            order,
            rel_tol,
            more,
        ).len(),
        forall|i: int|
            0 <= i < mismatches(values, order, rel_tol, fewer).len() ==> mismatches(
                values,
                order,
                rel_tol,
                more,
            )[i] == mismatches(values, order, rel_tol, fewer)[i],
    decreases more,
{
    if fewer < more {
        lemma_mismatches_grow(values, order, rel_tol, fewer, (more - 1) as nat);
    }
}

/// Builds the stored values of a symmetric matrix from a row-by-row
/// listing. In the forced form every mismatch is recorded in `warnings`;
/// otherwise the first mismatch ends the work.
pub fn symmetrize<V: FloatTrait>(
    order: usize,
    elements_values: &[V],
    rel_tol: V,
    forced: bool,
    warnings: &mut Vec<String>,
) -> (r: Result<Elements<V>, String>)
    requires
        obeys_arithmetic::<V>(),
        order * order <= usize::MAX,
    ensures
        r matches Ok(elements) ==> elements@ == symmetric_from_flat(order, elements_values@),
        forced ==> r.is_ok() && texts(final(warnings)@) == texts(old(warnings)@) + mismatches(
            elements_values@,
            order,
            rel_tol,
            order as nat,
        ),
        !forced ==> *final(warnings) == *old(warnings) && r.is_ok() == (mismatches(
            elements_values@,
            order,
            rel_tol,
            order as nat,
        ).len() == 0),
        !forced ==> (r matches Err(e) ==> e@ == mismatches(
            elements_values@,
            order,
            rel_tol,
            order as nat,
        )[0]),
{
    let shape = Shape(order, order);
    let ghost full = symmetric_from_flat(order, elements_values@);
    let mut elements: Elements<V> = Elements::new();
    let mut row: usize = 0;
    while row < order
        invariant
            obeys_arithmetic::<V>(),
            order * order <= usize::MAX,
            shape == Shape(order, order),
            full == symmetric_from_flat(order, elements_values@),
            row <= order,
            elements@ == full.restrict(scanned(shape, row, 0)),
            forced ==> texts(warnings@) == texts(old(warnings)@) + mismatches(
                elements_values@,
                order,
                rel_tol,
                row as nat,
            ),
            !forced ==> *warnings == *old(warnings) && mismatches(
                elements_values@,
                order,
                rel_tol,
                row as nat,
            ).len() == 0,
        decreases order - row,
    {
        let ghost listed_before = if forced {
            texts(old(warnings)@) + mismatches(elements_values@, order, rel_tol, row as nat)
        } else {
            Seq::empty()
        };
        let mut column: usize = 0;
        while column < order
            invariant
                obeys_arithmetic::<V>(),
                order * order <= usize::MAX,
                shape == Shape(order, order),
                full == symmetric_from_flat(order, elements_values@),
                row < order,
                column <= order,
                elements@ == full.restrict(scanned(shape, row, column)),
                forced ==> texts(warnings@) == listed_before + row_mismatches(
                    elements_values@,
                    order,
                    rel_tol,
                    row,
                    column as nat,
                ),
                !forced ==> *warnings == *old(warnings) && mismatches(
                    elements_values@,
                    order,
                    rel_tol,
                    row as nat,
                ).len() == 0 && row_mismatches(
                    elements_values@,
                    order,
                    rel_tol,
                    row,
                    column as nat,
                ).len() == 0,
            decreases order - column,
        {
            let position = Position(row, column);
            proof {
                lemma_flat_bound(shape, position);
            }
            let i: usize = row * order + column;
            let mut value: V = if i < elements_values.len() {
                elements_values[i]
            } else {
                zero_value()
            };
            if row > column {
                let mirror = Position(column, row);
                assert(scanned(shape, row, column).contains(mirror));
                let mirror_value: V = match elements.get(&mirror) {
                    Some(v) => *v,
                    None => zero_value(),
                };
                assert(mirror_value == listed(elements_values@, order, mirror));
                if is_mismatch(value, mirror_value, rel_tol) {
                    let message = mismatch_message(row, column);
                    if forced {
                        let ghost before = warnings@;
                        warnings.push(message);
                        assert(texts(warnings@) =~= texts(before).push(message@));
                    } else {
                        proof {
                            let so_far = row_mismatches(
                                elements_values@,
                                order,
                                rel_tol,
                                row,
                                (column + 1) as nat,
                            );
                            assert(so_far.len() == 1 && so_far[0] == message@);
                            lemma_row_mismatches_grow(
                                elements_values@,
                                order,
                                rel_tol,
                                row,
                                (column + 1) as nat,
                                order as nat,
                            );
                            let in_row = row_mismatches(
                                elements_values@,
                                order,
                                rel_tol,
                                row,
                                order as nat,
                            );
                            assert(in_row.len() >= 1 && in_row[0] == message@);
                            let upto_row = mismatches(
                                elements_values@,
                                order,
                                rel_tol,
                                (row + 1) as nat,
                            );
                            assert(upto_row.len() >= 1 && upto_row[0] == message@);
                            lemma_mismatches_grow(
                                elements_values@,
                                order,
                                rel_tol,
                                (row + 1) as nat,
                                order as nat,
                            );
                        }
                        return Err(message);
                    }
                }
                value = mirror_value;
            }
            elements.insert(position, value);
            column += 1;
            assert(elements@ =~= full.restrict(scanned(shape, row, column)));
            assert(forced ==> texts(warnings@) =~= listed_before + row_mismatches(
                elements_values@,
                order,
                rel_tol,
                row,
                column as nat,
            ));
        }
        row += 1;
        assert(elements@ =~= full.restrict(scanned(shape, row, 0)));
        assert(forced ==> texts(warnings@) =~= texts(old(warnings)@) + mismatches(
            elements_values@,
            order,
            rel_tol,
            row as nat,
        ));
    }
    assert(elements@ =~= full);
    Ok(elements)
}

impl<V: FloatTrait> SymmetricMatrix<V> {
    /// Each stored value equals the value stored at the mirror image.
    pub open spec fn is_symmetric(&self) -> bool {
        forall|p: Position| #[trigger]
            self.shape().holds(p) ==> self.elements().contains_key(p)
                && self.elements().contains_key(p.swapped()) && self.elements()[p]
                == self.elements()[p.swapped()]
    }

    /// The symmetric matrix of the given order that `elements_values`
    /// lists row by row. Fails on the first listed value below the
    /// diagonal that differs from the listed value of its mirror image by
    /// more than `rel_tol`.
    pub fn try_to_create(order: usize, elements_values: &[V], rel_tol: V) -> (r: Result<
        Self,
        String,
    >)
        requires
            obeys_arithmetic::<V>(),
            order * order <= usize::MAX,
        ensures
            r.is_ok() == (mismatches(elements_values@, order, rel_tol, order as nat).len() == 0),
            r matches Err(e) ==> e@ == mismatches(elements_values@, order, rel_tol, order as nat)[0],
            r matches Ok(m) ==> m.shape() == Shape(order, order) && m.elements()
                == symmetric_from_flat(order, elements_values@) && m.is_symmetric(),
    {
        let mut unused: Vec<String> = Vec::new();
        match symmetrize(order, elements_values, rel_tol, false, &mut unused) {
            Ok(elements) => Ok(SymmetricMatrix { shape: Shape(order, order), elements }),
            Err(e) => Err(e),
        }
    }

    /// The symmetric matrix of the given order that `elements_values`
    /// lists row by row, whatever it lists below the diagonal; appends to
    /// `warnings` one message for each listed value below the diagonal that
    /// differs from the listed value of its mirror image by more than
    /// `rel_tol`.
    pub fn force_create(
        order: usize,
        elements_values: &[V],
        rel_tol: V,
        warnings: &mut Vec<String>,
    ) -> (r: Self)
        requires
            obeys_arithmetic::<V>(),
            order * order <= usize::MAX,
        ensures
            r.shape() == Shape(order, order),
            r.elements() == symmetric_from_flat(order, elements_values@),
            r.is_symmetric(),
            texts(final(warnings)@) == texts(old(warnings)@) + mismatches(
                elements_values@,
                order,
                rel_tol,
                order as nat,
            ),
    {
        match symmetrize(order, elements_values, rel_tol, true, warnings) {
            Ok(elements) => SymmetricMatrix { shape: Shape(order, order), elements },
            Err(_) => SymmetricMatrix { shape: Shape(order, order), elements: Elements::new() },
        }
    }
}

} // verus!
