use vstd::prelude::*;
use crate::basic_operations_trait::BasicOperationsTrait;
use crate::matrix::Matrix;
use crate::messages::{not_square_message, not_square_text};
use crate::shape::Shape;
use crate::square_matrix::SquareMatrix;

verus! {

/// Conversion into a square matrix.
pub trait TryIntoSquareMatrixTrait: BasicOperationsTrait {
    /// The square matrix with the same shape and the same stored values.
    /// Fails where the shape is not square.
    fn try_into_square_matrix(&self) -> (r: Result<SquareMatrix<Self::Value>, String>) where
        Self::Value: Copy,

        ensures
            r.is_ok() == (self.shape().0 == self.shape().1),
            r matches Err(e) ==> e@ == not_square_text(),
            r matches Ok(m) ==> m.shape() == self.shape() && m.elements() == self.elements(),
    {
        let shape: Shape = *self.get_shape();
        if shape.0 != shape.1 {
            return Err(not_square_message());
        }
        Ok(SquareMatrix { shape, elements: self.get_elements().clone() })
    }
}

impl<V> TryIntoSquareMatrixTrait for Matrix<V> {

}

} // verus!
