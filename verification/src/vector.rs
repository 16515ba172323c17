use vstd::prelude::*;
use crate::basic_operations_trait::BasicOperationsTrait;
use crate::elements::Elements;
use crate::into_matrix_trait::IntoMatrixTrait;
use crate::position::Position;
use crate::shape::Shape;
use crate::vector_trait::VectorTrait;

verus! {

/// A vector of any length: a matrix with a single column, or, transposed,
/// with a single row.
#[derive(Debug, PartialEq, Clone)]
pub struct Vector<V> {
    pub shape: Shape,
    pub elements: Elements<V>,
}

impl<V> BasicOperationsTrait for Vector<V> {
    type Value = V;

    open spec fn shape(&self) -> Shape {
        self.shape
    }

    open spec fn elements(&self) -> Map<Position, V> {
        self.elements@
    }

    fn get_shape(&self) -> (r: &Shape) {
        &self.shape
    }

    fn get_mut_shape(&mut self) -> (r: &mut Shape) {
        &mut self.shape
    }

    fn get_elements(&self) -> (r: &Elements<V>) {
        &self.elements
    }

    fn get_mut_elements(&mut self) -> (r: &mut Elements<V>) {
        &mut self.elements
    }
}

impl<V> IntoMatrixTrait for Vector<V> {

}

impl<V> VectorTrait for Vector<V> {

}

/// The stored values of the column vector with the given components.
pub open spec fn column_vector<V>(values: Seq<V>) -> Map<Position, V> {
    Map::new(|p: Position| p.1 == 0 && p.0 < values.len(), |p: Position| values[p.0 as int])
}

impl<V: Copy> Vector<V> {
    /// The column vector with the given components.
    pub fn create(values: &[V]) -> (r: Self)
        ensures
            r.shape() == Shape(values@.len() as usize, 1),
            r.elements() == column_vector(values@),
    {
        let mut elements: Elements<V> = Elements::new();
        let mut i: usize = 0;
        while i < values.len()
            invariant
                i <= values.len(),
                elements@ == column_vector(values@.take(i as int)),
            decreases values.len() - i,
        {
            elements.insert(Position(i, 0), values[i]);
            i += 1;
            assert(elements@ =~= column_vector(values@.take(i as int)));
        }
        assert(values@.take(i as int) =~= values@);
        Vector { shape: Shape(values.len(), 1), elements }
    }
}

} // verus!
