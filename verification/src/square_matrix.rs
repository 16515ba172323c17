use vstd::prelude::*;
use vstd::std_specs::ops::AddSpec;
use crate::basic_operations_trait::{scanned, value_or_zero, BasicOperationsTrait};
use crate::elements::Elements;
use crate::flat::{flat_index, lemma_flat_bound, lemma_flat_order, sparse_from_flat};
use crate::float_trait::{is_zero, is_zero_value, obeys_arithmetic, zero_value, FloatTrait};
use crate::into_matrix_trait::IntoMatrixTrait;
use crate::position::Position;
use crate::shape::Shape;
use crate::square_matrix_trait::SquareMatrixTrait;

verus! {

/// A square matrix that stores only what differs from zero: a position
/// that is not stored reads as zero.
#[derive(PartialEq, Debug, Clone)]
pub struct SquareMatrix<V> {
    pub shape: Shape,
    pub elements: Elements<V>,
}

impl<V> BasicOperationsTrait for SquareMatrix<V> {
    type Value = V;

    open spec fn shape(&self) -> Shape {
        self.shape
    }

    open spec fn elements(&self) -> Map<Position, V> {
        self.elements@
    }

    fn get_shape(&self) -> (r: &Shape) {
        &self.shape
    }

    fn get_mut_shape(&mut self) -> (r: &mut Shape) {
        &mut self.shape
    }

    fn get_elements(&self) -> (r: &Elements<V>) {
        &self.elements
    }

    fn get_mut_elements(&mut self) -> (r: &mut Elements<V>) {
        &mut self.elements
    }
}

impl<V> IntoMatrixTrait for SquareMatrix<V> {

}

impl<V> SquareMatrixTrait for SquareMatrix<V> {

}

/// What accumulating `delta` at `position` leaves in the store: nothing
/// changes for a zero `delta`; a new entry holds `delta`; an old entry
/// holds the sum, and is dropped where the sum is zero.
pub open spec fn accumulated<V: FloatTrait>(
    elements: Map<Position, V>,
    position: Position,
    delta: V,
) -> Map<Position, V> {
    if is_zero(delta) {
        elements
    } else if !elements.contains_key(position) {
        elements.insert(position, delta)
    } else if is_zero(elements[position].add_spec(delta)) {
        elements.remove(position)
    } else {
        elements.insert(position, elements[position].add_spec(delta))
    }
}

/// What a store holds after the first `upto` of a list of accumulations,
/// each a position and the value added there.
pub open spec fn accumulated_all<V: FloatTrait>(
    elements: Map<Position, V>,
    steps: Seq<(Position, V)>,
    upto: nat,
) -> Map<Position, V>
    decreases upto,
{
    if upto == 0 {
        elements
    } else {
        accumulated(
            accumulated_all(elements, steps, (upto - 1) as nat),
            steps[upto - 1].0,
            steps[upto - 1].1,
        )
    }
}

/// No stored value is zero.
pub open spec fn stores_no_zero<V: FloatTrait>(elements: Map<Position, V>) -> bool {
    forall|p: Position| #[trigger] elements.contains_key(p) ==> !is_zero(elements[p])
}

/// A store that holds no zero holds none after any list of accumulations.
pub proof fn lemma_accumulation_stores_no_zero<V: FloatTrait>(
    elements: Map<Position, V>,
    steps: Seq<(Position, V)>,
    upto: nat,
)
    requires
        stores_no_zero(elements),
    ensures
        stores_no_zero(accumulated_all(elements, steps, upto)),
    decreases upto,
{
    if upto > 0 {
        lemma_accumulation_stores_no_zero(elements, steps, (upto - 1) as nat);
    }
}

impl<V: FloatTrait> SquareMatrix<V> {
    /// No stored value is zero.
    pub open spec fn is_sparse(&self) -> bool {
        stores_no_zero(self.elements())
    }

    /// The matrix of the given order that `elements_values` lists row by
    /// row. Zeros are not stored; where the listing ends early, the rest of
    /// the matrix is zero.
    pub fn create(order: usize, elements_values: &[V]) -> (r: Self)
        requires
            obeys_arithmetic::<V>(),
        ensures
            r.shape() == Shape(order, order),
            r.elements() == sparse_from_flat(Shape(order, order), elements_values@),
            r.is_sparse(),
    {
        let shape = Shape(order, order);
        let ghost full = sparse_from_flat(shape, elements_values@);
        let mut elements: Elements<V> = Elements::new();
        let mut row: usize = 0;
        let mut column: usize = 0;
        let mut i: usize = 0;
        while row < order && i < elements_values.len()
            invariant
                obeys_arithmetic::<V>(),
                shape == Shape(order, order),
                full == sparse_from_flat(shape, elements_values@),
                row <= order,
                column < order || (column == 0 && row == order),
                i == row * order + column,
                i <= elements_values.len(),
                elements@ == full.restrict(scanned(shape, row, column)),
            decreases elements_values.len() - i,
        {
            let value: V = elements_values[i];
            let position = Position(row, column);
            if !is_zero_value(value) {
                elements.insert(position, value);
            }
            let ghost previous = (row, column);
            i += 1;
            column += 1;
            if column == order {
                column = 0;
                row += 1;
                assert(i == row * order) by (nonlinear_arith)
                    requires
                        i == (row - 1) * order + order,
                ;
            }
            assert(elements@ =~= full.restrict(scanned(shape, row, column)));
        }
        proof {
            assert forall|p: Position| full.contains_key(p) implies scanned(
                shape,
                row,
                column,
            ).contains(p) by {
                if !(p.0 < row || (p.0 == row && p.1 < column)) {
                    if p != Position(row, column) {
                        lemma_flat_order(order as int, Position(row, column), p);
                    }
                }
            }
            assert(elements@ =~= full);
        }
        SquareMatrix { shape, elements }
    }

    /// Adds `delta` to what `position` reads as. A zero `delta` changes
    /// nothing, and a sum of zero is not stored.
    pub fn add_value(&mut self, position: Position, delta: V)
        requires
            obeys_arithmetic::<V>(),
        ensures
            final(self).shape() == old(self).shape(),
            final(self).elements() == accumulated(old(self).elements(), position, delta),
            old(self).is_sparse() ==> final(self).is_sparse(),
    {
        if is_zero_value(delta) {
            return ;
        }
        let sum: V = match self.elements.get(&position) {
            Some(v) => *v + delta,
            None => delta,
        };
        if is_zero_value(sum) {
            self.elements.remove(&position);
        } else {
            self.elements.insert(position, sum);
        }
    }

    /// The whole matrix row by row, zero where nothing is stored.
    pub fn to_dense_values(&self) -> (r: Vec<V>)
        requires
            obeys_arithmetic::<V>(),
            self.shape().0 * self.shape().1 <= usize::MAX,
        ensures
            r.len() == self.shape().0 * self.shape().1,
            forall|p: Position| #[trigger]
                self.shape().holds(p) ==> 0 <= flat_index(self.shape().1 as int, p) < r.len()
                    && r[flat_index(self.shape().1 as int, p)] == value_or_zero(
                    self.elements(),
                    p,
                ),
    {
        let shape: Shape = self.shape;
        let mut values: Vec<V> = Vec::new();
        let mut row: usize = 0;
        while row < shape.0
            invariant
                obeys_arithmetic::<V>(),
                shape == self.shape(),
                shape.0 * shape.1 <= usize::MAX,
                row <= shape.0,
                values.len() == row * shape.1,
                forall|p: Position| #[trigger]
                    scanned(shape, row, 0).contains(p) ==> 0 <= flat_index(shape.1 as int, p)
                        < values.len() && values[flat_index(shape.1 as int, p)] == value_or_zero(
                        self.elements(),
                        p,
                    ),
            decreases shape.0 - row,
        {
            let mut column: usize = 0;
            while column < shape.1
                invariant
                    obeys_arithmetic::<V>(),
                    shape == self.shape(),
                    shape.0 * shape.1 <= usize::MAX,
                    row < shape.0,
                    column <= shape.1,
                    values.len() == row * shape.1 + column,
                    forall|p: Position| #[trigger]
                        scanned(shape, row, column).contains(p) ==> 0 <= flat_index(
                            shape.1 as int,
                            p,
                        ) < values.len() && values[flat_index(shape.1 as int, p)]
                            == value_or_zero(self.elements(), p),
                decreases shape.1 - column,
            {
                let position = Position(row, column);
                let value: V = match self.elements.get(&position) {
                    Some(v) => *v,
                    None => zero_value(),
                };
                proof {
                    lemma_flat_bound(shape, position);
                }
                let ghost before = values@;
                values.push(value);
                column += 1;
                assert forall|p: Position| #[trigger]
                    scanned(shape, row, column).contains(p) implies 0 <= flat_index(
                    shape.1 as int,
                    p,
                ) < values.len() && values[flat_index(shape.1 as int, p)] == value_or_zero(
                    self.elements(),
                    p,
                ) by {
                    if p != position {
                        assert(scanned(shape, row, (column - 1) as usize).contains(p));
                        assert(values[flat_index(shape.1 as int, p)] == before[flat_index(
                            shape.1 as int,
                            p,
                        )]);
                    }
                }
            }
            row += 1;
            assert(values.len() == row * shape.1) by (nonlinear_arith)
                requires
                    values.len() == (row - 1) * shape.1 + shape.1,
            ;
            assert forall|p: Position| #[trigger]
                scanned(shape, row, 0).contains(p) implies scanned(
                shape,
                (row - 1) as usize,
                shape.1,
            ).contains(p) by {}
        }
        assert forall|p: Position| #[trigger] shape.holds(p) implies 0 <= flat_index(
            shape.1 as int,
            p,
        ) < values.len() && values[flat_index(shape.1 as int, p)] == value_or_zero(
            self.elements(),
            p,
        ) by {
            assert(scanned(shape, row, 0).contains(p));
        }
        values
    }
}

} // verus!
