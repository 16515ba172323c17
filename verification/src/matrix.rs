use vstd::prelude::*;
use crate::basic_operations_trait::{scanned, BasicOperationsTrait};
use crate::flat::{dense_from_flat, lemma_flat_bound};
use crate::float_trait::{obeys_arithmetic, zero_value, FloatTrait};
use crate::elements::Elements;
use crate::position::Position;
use crate::shape::Shape;

verus! {

/// A general rectangular matrix.
#[derive(Debug, PartialEq, Clone)]
pub struct Matrix<V> {
    pub shape: Shape,
    pub elements: Elements<V>,
}

impl<V> BasicOperationsTrait for Matrix<V> {
    type Value = V;

    open spec fn shape(&self) -> Shape {
        self.shape
    }

    open spec fn elements(&self) -> Map<Position, V> {
        self.elements@
    }

    fn get_shape(&self) -> (r: &Shape) {
        &self.shape
    }

    fn get_mut_shape(&mut self) -> (r: &mut Shape) {
        &mut self.shape
    }

    fn get_elements(&self) -> (r: &Elements<V>) {
        &self.elements
    }

    fn get_mut_elements(&mut self) -> (r: &mut Elements<V>) {
        &mut self.elements
    }
}

impl<V> crate::into_matrix_trait::IntoMatrixTrait for Matrix<V> {

}

impl<V: FloatTrait> Matrix<V> {
    /// The matrix of the given shape that `elements_values` lists row by
    /// row. Every position is stored; where the listing ends early, the
    /// remaining positions hold zero.
    pub fn create(rows_number: usize, columns_number: usize, elements_values: &[V]) -> (r: Self)
        requires
            obeys_arithmetic::<V>(),
            rows_number * columns_number <= usize::MAX,
        ensures
            r.shape() == Shape(rows_number, columns_number),
            r.elements() == dense_from_flat(Shape(rows_number, columns_number), elements_values@),
    {
        let shape = Shape(rows_number, columns_number);
        let ghost full = dense_from_flat(shape, elements_values@);
        let mut elements: Elements<V> = Elements::new();
        let mut row: usize = 0;
        while row < rows_number
            invariant
                obeys_arithmetic::<V>(),
                rows_number * columns_number <= usize::MAX,
                shape == Shape(rows_number, columns_number),
                full == dense_from_flat(shape, elements_values@),
                row <= rows_number,
                elements@ == full.restrict(scanned(shape, row, 0)),
            decreases rows_number - row,
        {
            let mut column: usize = 0;
            while column < columns_number
                invariant
                    obeys_arithmetic::<V>(),
                    rows_number * columns_number <= usize::MAX,
                    shape == Shape(rows_number, columns_number),
                    full == dense_from_flat(shape, elements_values@),
                    row < rows_number,
                    column <= columns_number,
                    elements@ == full.restrict(scanned(shape, row, column)),
                decreases columns_number - column,
            {
                let position = Position(row, column);
                proof {
                    lemma_flat_bound(shape, position);
                }
                let i: usize = row * columns_number + column;
                let value: V = if i < elements_values.len() {
                    elements_values[i]
                } else {
                    zero_value()
                };
                elements.insert(position, value);
                column += 1;
                assert(elements@ =~= full.restrict(scanned(shape, row, column)));
            }
            row += 1;
            assert(elements@ =~= full.restrict(scanned(shape, row, 0)));
        }
        assert(elements@ =~= full);
        Matrix { shape, elements }
    }
}

} // verus!
