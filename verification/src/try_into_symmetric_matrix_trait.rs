use vstd::prelude::*;
use crate::basic_operations_trait::{value_or_zero, BasicOperationsTrait};
use crate::elements::Elements;
use crate::float_trait::{obeys_arithmetic, FloatTrait};
use crate::position::Position;
use crate::shape::Shape;
use crate::square_matrix::SquareMatrix;
use crate::square_matrix_trait::SquareMatrixTrait;
use crate::symmetric_matrix::{mismatches, symmetric_from_flat, symmetrize, SymmetricMatrix};
use crate::try_into_symmetric_compacted_matrix_trait::texts;

verus! {

/// The first `order` rows and columns of a matrix row by row, zero where
/// nothing is stored.
pub open spec fn listing<V: FloatTrait>(elements: Map<Position, V>, order: usize) -> Seq<V> {
    Seq::new(
        (order * order) as nat,
        |i: int| value_or_zero(elements, Position((i / order as int) as usize, (i % order as int) as usize)),
    )
}

/// The first `order` rows and columns of `matrix` row by row.
pub fn list_values<M>(matrix: &M, order: usize) -> (r: Vec<M::Value>) where
    M: BasicOperationsTrait,
    M::Value: FloatTrait,

    requires
        obeys_arithmetic::<M::Value>(),
        order * order <= usize::MAX,
    ensures
        r@ == listing(matrix.elements(), order),
{
    let ghost full = listing(matrix.elements(), order);
    let mut values: Vec<M::Value> = Vec::new();
    let mut row: usize = 0;
    while row < order
        invariant
            obeys_arithmetic::<M::Value>(),
            order * order <= usize::MAX,
            full == listing(matrix.elements(), order),
            row <= order,
            values.len() == row * order,
            values@ == full.take(values.len() as int),
        decreases order - row,
    {
        let mut column: usize = 0;
        while column < order
            invariant
                obeys_arithmetic::<M::Value>(),
                order * order <= usize::MAX,
                full == listing(matrix.elements(), order),
                row < order,
                column <= order,
                values.len() == row * order + column,
                values@ == full.take(values.len() as int),
            decreases order - column,
        {
            let position = Position(row, column);
            let ghost i: int = row * order + column;
            proof {
                assert(i + 1 <= order * order) by (nonlinear_arith)
                    requires
                        i == row * order + column,
                        0 <= column < order,
                        0 <= row < order,
                ;
                assert(i / order as int == row && i % order as int == column) by (nonlinear_arith)
                    requires
                        i == row * order + column,
                        0 <= column < order,
                        0 <= row,
                ;
                assert(full[i] == value_or_zero(matrix.elements(), position));
            }
            let value = matrix.get_element_value_or_zero(&position);
            let ghost before = values@;
            values.push(value);
            column += 1;
            assert(values@ =~= full.take(values.len() as int)) by {
                assert(before =~= full.take(i));
                assert(values@ == before.push(value));
            }
        }
        row += 1;
        assert(values.len() == row * order) by (nonlinear_arith)
            requires
                values.len() == (row - 1) * order + order,
        ;
    }
    assert(values@ =~= full);
    values
}

/// Conversion of a square matrix into a symmetric one.
pub trait TryIntoSymmetricMatrixTrait: SquareMatrixTrait {
    /// The symmetric matrix that takes its values on and above the
    /// diagonal from this one. Fails on the first value below the diagonal,
    /// row by row, that differs from its mirror image by more than
    /// `rel_tol`.
    fn try_into_symmetric_matrix(&self, rel_tol: Self::Value) -> (r: Result<
        SymmetricMatrix<Self::Value>,
        String,
    >) where Self::Value: FloatTrait
        requires
            obeys_arithmetic::<Self::Value>(),
            self.shape().0 == self.shape().1,
            self.shape().0 * self.shape().0 <= usize::MAX,
        ensures
            r.is_ok() == (mismatches(
                listing(self.elements(), self.shape().0),
                self.shape().0,
                rel_tol,
                self.shape().0 as nat,
            ).len() == 0),
            r matches Err(e) ==> e@ == mismatches(
                listing(self.elements(), self.shape().0),
                self.shape().0,
                rel_tol,
                self.shape().0 as nat,
            )[0],
            r matches Ok(m) ==> m.shape() == self.shape() && m.elements() == symmetric_from_flat(
                self.shape().0,
                listing(self.elements(), self.shape().0),
            ) && m.is_symmetric(),
    {
        let shape: Shape = *self.get_shape();
        let values = list_values(self, shape.0);
        let mut unused: Vec<String> = Vec::new();
        match symmetrize(shape.0, values.as_slice(), rel_tol, false, &mut unused) {
            Ok(elements) => Ok(SymmetricMatrix { shape, elements }),
            Err(e) => Err(e),
        }
    }

    /// The symmetric matrix that takes its values on and above the
    /// diagonal from this one; appends to `warnings` one message for each
    /// value below the diagonal that differs from its mirror image by more
    /// than `rel_tol`.
    fn forced_into_symmetric_matrix(&self, rel_tol: Self::Value, warnings: &mut Vec<String>) -> (r:
        SymmetricMatrix<Self::Value>) where Self::Value: FloatTrait
        requires
            obeys_arithmetic::<Self::Value>(),
            self.shape().0 == self.shape().1,
            self.shape().0 * self.shape().0 <= usize::MAX,
        ensures
            r.shape() == self.shape(),
            r.elements() == symmetric_from_flat(
                self.shape().0,
                listing(self.elements(), self.shape().0),
            ),
            r.is_symmetric(),
            texts(final(warnings)@) == texts(old(warnings)@) + mismatches(
                listing(self.elements(), self.shape().0),
                self.shape().0,
                rel_tol,
                self.shape().0 as nat,
            ),
    {
        let shape: Shape = *self.get_shape();
        let values = list_values(self, shape.0);
        match symmetrize(shape.0, values.as_slice(), rel_tol, true, warnings) {
            Ok(elements) => SymmetricMatrix { shape, elements },
            Err(_) => SymmetricMatrix { shape, elements: Elements::new() },
        }
    }
}

impl<V> TryIntoSymmetricMatrixTrait for SquareMatrix<V> {

}

} // verus!
