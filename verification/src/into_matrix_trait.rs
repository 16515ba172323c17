use vstd::prelude::*;
use crate::basic_operations_trait::BasicOperationsTrait;
use crate::matrix::Matrix;

verus! {

/// Conversion into a general matrix.
pub trait IntoMatrixTrait: BasicOperationsTrait {
    /// The general matrix with the same shape and the same stored values.
    fn into_matrix(&self) -> (r: Matrix<Self::Value>) where Self::Value: Copy
        ensures
            r.shape() == self.shape(),
            r.elements() == self.elements(),
    {
        Matrix { shape: *self.get_shape(), elements: self.get_elements().clone() }
    }
}

} // verus!
