use vstd::prelude::*;
use vstd::std_specs::ops::{DivSpec, MulSpec, SubSpec};
use vstd::string::StringExecFns;
use crate::basic_matrix::{
    empty_columns, empty_rows, incorrect_number_text, inserted, listing_kind, out_of_size_text,
    place_of, significant_part, smaller, stripped, symmetrizable, unfolded, without_column,
    without_row, BasicMatrixType,
};
use crate::basic_operations_trait::{conform, scaled};
use crate::direct_solution::{outcome, padded, singular_text, solved};

use crate::elements::Elements;
use crate::elimination::{grid, is_square};
use crate::extended_matrix::{
    assembled, diagonal_readings_product, joint_kind, kept, places, product_sum, square,
    stored, ExtendedMatrix,
};
use crate::float_trait::{
    is_significant, obeys_arithmetic, one, one_value, significant, zero, zero_value, FloatTrait,
};
use crate::matrix_element_position::MatrixElementPosition;
use crate::operation::Operation;
use crate::position::Position;
use crate::rearrangement::{rearranged, Rearrangement};
use crate::shape::Shape;
use crate::square_matrix_trait::{dense, zeros};
use crate::uint_trait::UIntTrait;

verus! {

/// A sparse matrix with the tolerance below which it takes a value for
/// zero, decomposed without pivoting.
#[derive(Clone, Debug, PartialEq)]
pub struct NewExtendedMatrix<T: UIntTrait, V: FloatTrait> {
    matrix: ExtendedMatrix<T, V>,
}

/// "Extended matrix: Shapes of matrices does not conform to each other!"
pub open spec fn does_not_conform_text() -> Seq<char> {
    "Extended matrix: Shapes of matrices does not conform to each other!"@
}

/// "Extended matrix: Multiplication operation could not be applied for
/// add_subtract function!"
pub open spec fn not_applied_text() -> Seq<char> {
    "Extended matrix: Multiplication operation could not be applied for add_subtract function!"@
}

/// "Extended matrix: Matrix could not be decomposed!"
pub open spec fn not_decomposed_text() -> Seq<char> {
    "Extended matrix: Matrix could not be decomposed!"@
}

/// The value, or zero where its magnitude is not above the tolerance.
pub open spec fn chopped<V: FloatTrait>(value: V, tolerance: V) -> V {
    if significant(value, tolerance) {
        value
    } else {
        zero::<V>()
    }
}

/// The factor by which row `k` is taken off row `i`.
pub open spec fn row_factor<V: FloatTrait>(rows: Seq<Seq<V>>, k: int, i: int) -> V {
    rows[i][k].div_spec(rows[k][k])
}

/// Row `i` less the factor times row `k`.
pub open spec fn row_less<V: FloatTrait>(rows: Seq<Seq<V>>, k: int, i: int) -> Seq<V> {
    Seq::new(
        rows[i].len(),
        |j: int| rows[i][j].sub_spec(rows[k][j].mul_spec(row_factor(rows, k, i))),
    )
}

/// The rows after row `k` was taken off every row below it, each new value
/// chopped.
pub open spec fn taken_off<V: FloatTrait>(rows: Seq<Seq<V>>, k: int, tolerance: V) -> Seq<
    Seq<V>,
> {
    Seq::new(
        rows.len(),
        |i: int|
            if i > k {
                Seq::new(rows[i].len(), |j: int| chopped(row_less(rows, k, i)[j], tolerance))
            } else {
                rows[i]
            },
    )
}

/// The rows after the first `steps` rows were taken off the rows below
/// them, one after the other.
pub open spec fn reduced_rows<V: FloatTrait>(rows: Seq<Seq<V>>, tolerance: V, steps: nat) -> Seq<
    Seq<V>,
>
    decreases steps,
{
    if steps == 0 {
        rows
    } else {
        taken_off(reduced_rows(rows, tolerance, (steps - 1) as nat), steps - 1, tolerance)
    }
}

/// The values given to the lower factor: ones on the diagonal, and below
/// it in column `k` the factors by which row `k` was taken off the rows
/// below it.
pub open spec fn lower_values<V: FloatTrait>(rows: Seq<Seq<V>>, tolerance: V) -> Seq<Seq<V>> {
    Seq::new(
        rows.len(),
        |i: int|
            Seq::new(
                rows.len(),
                |j: int|
                    if j < i {
                        row_factor(reduced_rows(rows, tolerance, j as nat), j, i)
                    } else {
                        one::<V>()
                    },
            ),
    )
}

/// The values given to the upper factor: the first row as it is, and each
/// later row as it was when the row above it was taken off it.
pub open spec fn upper_values<V: FloatTrait>(rows: Seq<Seq<V>>, tolerance: V) -> Seq<Seq<V>> {
    Seq::new(
        rows.len(),
        |i: int|
            if i == 0 {
                rows[0]
            } else {
                row_less(reduced_rows(rows, tolerance, (i - 1) as nat), i - 1, i)
            },
    )
}

/// The positions of the first `n` rows on and below the diagonal.
pub open spec fn lower_triangle(n: usize) -> Set<Position> {
    Set::new(|p: Position| p.1 <= p.0 < n)
}

/// The stored values of the lower factor of the decomposition of `rows`.
pub open spec fn lower_elements<V: FloatTrait>(rows: Seq<Seq<V>>, n: usize, tolerance: V) -> Map<
    Position,
    V,
> {
    stored(
        BasicMatrixType::NonSymmetric,
        Map::empty(),
        lower_values(rows, tolerance),
        lower_triangle(n),
        tolerance,
    )
}

/// The stored values of the upper factor of the decomposition of `rows`.
pub open spec fn upper_elements<V: FloatTrait>(rows: Seq<Seq<V>>, n: usize, tolerance: V) -> Map<
    Position,
    V,
> {
    stored(
        BasicMatrixType::NonSymmetric,
        Map::empty(),
        upper_values(rows, tolerance),
        square(n),
        tolerance,
    )
}

/// What a column of `n` rows stores of a solution: the values whose
/// magnitude is above the tolerance.
pub open spec fn column_of<V: FloatTrait>(solution: Seq<V>, n: usize, tolerance: V) -> Map<
    Position,
    V,
> {
    significant_part(Shape(n, 1usize), solution, tolerance, BasicMatrixType::NonSymmetric)
}

/// Column `k` of the inverse: the solution for the unit vector `k` with
/// the lower factor, and then the solution for what is stored of it with
/// the upper factor; nothing where one of the two meets a zero pivot.
pub open spec fn inverse_column<V: FloatTrait>(
    lower: Map<Position, V>,
    upper: Map<Position, V>,
    k: usize,
    n: usize,
    tolerance: V,
) -> Option<Seq<V>> {
    let unit = inserted(
        BasicMatrixType::NonSymmetric,
        Map::<Position, V>::empty(),
        Position(k, 0),
        one::<V>(),
        tolerance,
    );
    match solved(
        BasicMatrixType::NonSymmetric,
        lower,
        BasicMatrixType::NonSymmetric,
        unit,
        n,
    ) {
        None => None,
        Some(interim) => solved(
            BasicMatrixType::NonSymmetric,
            upper,
            BasicMatrixType::NonSymmetric,
            column_of(interim, n, tolerance),
            n,
        ),
    }
}

/// The values given to the inverse: in each column what is stored of the
/// solution for that column.
pub open spec fn inverse_columns<V: FloatTrait>(
    lower: Map<Position, V>,
    upper: Map<Position, V>,
    n: usize,
    tolerance: V,
) -> Seq<Seq<V>> {
    Seq::new(
        n as nat,
        |i: int|
            Seq::new(
                n as nat,
                |k: int|
                    chopped(
                        inverse_column(lower, upper, k as usize, n, tolerance).unwrap()[i],
                        tolerance,
                    ),
            ),
    )
}

impl<T: UIntTrait, V: FloatTrait> NewExtendedMatrix<T, V> {
    /// The matrix with its tolerance.
    pub closed spec fn extended(&self) -> ExtendedMatrix<T, V> {
        self.matrix
    }

    /// The matrix seen as one that is decomposed with pivoting.
    pub fn ref_extended(&self) -> (r: &ExtendedMatrix<T, V>)
        ensures
            *r == self.extended(),
    {
        &self.matrix
    }

    /// The matrix of the given size that `all_elements_values` lists row
    /// by row. Fails where the listing is too short.
    pub fn create(rows_number: T, columns_number: T, all_elements_values: Vec<V>, tolerance: V) -> (r:
        Result<Self, String>)
        requires
            obeys_arithmetic::<V>(),
            rows_number.number() * columns_number.number() <= usize::MAX,
            rows_number.number() <= usize::MAX,
            columns_number.number() <= usize::MAX,
        ensures
            r.is_ok() == (rows_number.number() * columns_number.number()
                <= all_elements_values.len()),
            r matches Err(e) ==> e@ == incorrect_number_text(),
            r matches Ok(m) ==> m.extended().tolerance() == tolerance
                && m.extended().basic().rows_number() == rows_number
                && m.extended().basic().columns_number() == columns_number
                && m.extended().basic().kind() == listing_kind(
                m.extended().basic().shape(),
                all_elements_values@,
                tolerance,
            ) && m.extended().basic().elements() == significant_part(
                m.extended().basic().shape(),
                all_elements_values@,
                tolerance,
                m.extended().basic().kind(),
            ),
    {
        match ExtendedMatrix::create(rows_number, columns_number, all_elements_values, tolerance) {
            Ok(matrix) => Ok(NewExtendedMatrix { matrix }),
            Err(e) => Err(e),
        }
    }

    /// Whether the shapes of `self` and `other` admit `operation`; if so,
    /// the common dimension and the shape of the result.
    pub fn matrices_dimensions_conformity_check(&self, other: &Self, operation: Operation) -> (r:
        Result<(T, Shape<T>), String>)
        requires
            self.extended().basic().in_range(),
            other.extended().basic().in_range(),
        ensures
            r.is_ok() == conform(
                self.extended().basic().shape(),
                other.extended().basic().shape(),
                operation,
            ),
            r matches Err(e) ==> e@ == does_not_conform_text(),
            r matches Ok(found) ==> found.0 == self.extended().basic().columns_number()
                && found.1 == Shape(
                self.extended().basic().rows_number(),
                other.extended().basic().columns_number(),
            ),
    {
        match self.matrix.matrices_dimensions_conformity_check(&other.matrix, operation) {
            Ok(found) => Ok(found),
            Err(_) => Err(
                String::from_str(
                    "Extended matrix: Shapes of matrices does not conform to each other!",
                ),
            ),
        }
    }

    /// The sum or the difference of two matrices of the same shape. For a
    /// multiplication it fails: with the message for shapes that do not
    /// admit a product, for a position outside one of the matrices, or
    /// because the operation cannot be applied; only a product without any
    /// position is given, as an empty matrix.
    pub fn add_subtract_matrix(&self, other: &Self, operation: Operation) -> (r: Result<
        Self,
        String,
    >)
        requires
            obeys_arithmetic::<V>(),
            self.extended().basic().in_range(),
            other.extended().basic().in_range(),
        ensures
            !conform(
                self.extended().basic().shape(),
                other.extended().basic().shape(),
                operation,
            ) ==> (r matches Err(e) && e@ == does_not_conform_text()),
            conform(self.extended().basic().shape(), other.extended().basic().shape(), operation)
                ==> match operation {
                Operation::Multiplication => if self.extended().basic().shape().0 == 0
                    || other.extended().basic().shape().1 == 0 {
                    r matches Ok(m) && m.extended().tolerance() == self.extended().tolerance()
                        && m.extended().basic().rows_number()
                        == self.extended().basic().rows_number()
                        && m.extended().basic().columns_number()
                        == other.extended().basic().columns_number()
                        && m.extended().basic().kind() == joint_kind(
                        self.extended().basic().kind(),
                        other.extended().basic().kind(),
                    ) && m.extended().basic().elements() == Map::<Position, V>::empty()
                } else if self.extended().basic().shape().1 == 0 {
                    r matches Err(e) && e@ == out_of_size_text()
                } else {
                    r matches Err(e) && e@ == not_applied_text()
                },
                _ => r matches Ok(m) && m.extended().tolerance() == self.extended().tolerance()
                    && m.extended().basic().rows_number()
                    == self.extended().basic().rows_number()
                    && m.extended().basic().columns_number()
                    == other.extended().basic().columns_number()
                    && m.extended().basic().kind() == joint_kind(
                    self.extended().basic().kind(),
                    other.extended().basic().kind(),
                ) && m.extended().basic().elements() == kept(
                    self.extended().basic().shape(),
                    m.extended().basic().kind(),
                    self.extended().tolerance(),
                    |p: Position|
                        self.extended().combined(
                            &other.extended(),
                            operation == Operation::Subtraction,
                            p,
                        ),
                ),
            },
    {
        match operation {
            Operation::Addition => match self.matrix.add_matrix(&other.matrix) {
                Ok(matrix) => Ok(NewExtendedMatrix { matrix }),
                Err(_) => Err(
                    String::from_str(
                        "Extended matrix: Shapes of matrices does not conform to each other!",
                    ),
                ),
            },
            Operation::Subtraction => match self.matrix.subtract_matrix(&other.matrix) {
                Ok(matrix) => Ok(NewExtendedMatrix { matrix }),
                Err(_) => Err(
                    String::from_str(
                        "Extended matrix: Shapes of matrices does not conform to each other!",
                    ),
                ),
            },
            Operation::Multiplication => {
                let shape = match self.matrices_dimensions_conformity_check(other, operation) {
                    Ok(found) => found.1,
                    Err(e) => {
                        return Err(e);
                    },
                };
                if shape.0.into_usize() == 0 || shape.1.into_usize() == 0 {
                    let kind = match (self.ref_matrix_type(), other.ref_matrix_type()) {
                        (BasicMatrixType::Symmetric, BasicMatrixType::Symmetric) => {
                            BasicMatrixType::Symmetric
                        },
                        _ => BasicMatrixType::NonSymmetric,
                    };
                    return Ok(
                        NewExtendedMatrix {
                            matrix: ExtendedMatrix::create_default(
                                shape.0,
                                shape.1,
                                kind,
                                self.matrix.copy_tolerance(),
                            ),
                        },
                    );
                }
                if self.copy_shape().1.into_usize() == 0 {
                    return Err(
                        String::from_str("Basic matrix: Inputted indexes are out of matrix size!"),
                    );
                }
                Err(
                    String::from_str(
                        "Extended matrix: Multiplication operation could not be applied for add_subtract function!",
                    ),
                )
            },
        }
    }

    /// The sum of two matrices of the same shape.
    pub fn add_matrix(&self, other: &Self) -> (r: Result<Self, String>)
        requires
            obeys_arithmetic::<V>(),
            self.extended().basic().in_range(),
            other.extended().basic().in_range(),
        ensures
            r.is_ok() == (self.extended().basic().shape() == other.extended().basic().shape()),
            r matches Err(e) ==> e@ == does_not_conform_text(),
            r matches Ok(m) ==> m.extended().tolerance() == self.extended().tolerance()
                && m.extended().basic().rows_number() == self.extended().basic().rows_number()
                && m.extended().basic().columns_number()
                == other.extended().basic().columns_number() && m.extended().basic().kind()
                == joint_kind(self.extended().basic().kind(), other.extended().basic().kind())
                && m.extended().basic().elements() == kept(
                self.extended().basic().shape(),
                m.extended().basic().kind(),
                self.extended().tolerance(),
                |p: Position| self.extended().combined(&other.extended(), false, p),
            ),
    {
        self.add_subtract_matrix(other, Operation::Addition)
    }

    /// The difference of two matrices of the same shape.
    pub fn subtract_matrix(&self, other: &Self) -> (r: Result<Self, String>)
        requires
            obeys_arithmetic::<V>(),
            self.extended().basic().in_range(),
            other.extended().basic().in_range(),
        ensures
            r.is_ok() == (self.extended().basic().shape() == other.extended().basic().shape()),
            r matches Err(e) ==> e@ == does_not_conform_text(),
            r matches Ok(m) ==> m.extended().tolerance() == self.extended().tolerance()
                && m.extended().basic().rows_number() == self.extended().basic().rows_number()
                && m.extended().basic().columns_number()
                == other.extended().basic().columns_number() && m.extended().basic().kind()
                == joint_kind(self.extended().basic().kind(), other.extended().basic().kind())
                && m.extended().basic().elements() == kept(
                self.extended().basic().shape(),
                m.extended().basic().kind(),
                self.extended().tolerance(),
                |p: Position| self.extended().combined(&other.extended(), true, p),
            ),
    {
        self.add_subtract_matrix(other, Operation::Subtraction)
    }

    /// Multiplies every stored value by `number`.
    pub fn multiply_by_number(&mut self, number: V)
        requires
            obeys_arithmetic::<V>(),
        ensures
            final(self).extended().tolerance() == old(self).extended().tolerance(),
            final(self).extended().basic().rows_number() == old(self).extended().basic().rows_number(),
            final(self).extended().basic().columns_number() == old(self).extended().basic().columns_number(),
            final(self).extended().basic().kind() == old(self).extended().basic().kind(),
            final(self).extended().basic().elements() == scaled(
                old(self).extended().basic().elements(),
                number,
            ),
    {
        self.matrix.multiply_by_number(number);
    }

    /// The product of two matrices, the first with as many columns as the
    /// second has rows.
    pub fn multiply_by_matrix(&self, other: &Self) -> (r: Result<Self, String>)
        requires
            obeys_arithmetic::<V>(),
            self.extended().basic().in_range(),
            other.extended().basic().in_range(),
        ensures
            r.is_ok() == (self.extended().basic().shape().1
                == other.extended().basic().shape().0),
            r matches Err(e) ==> e@ == does_not_conform_text(),
            r matches Ok(m) ==> m.extended().tolerance() == self.extended().tolerance()
                && m.extended().basic().rows_number() == self.extended().basic().rows_number()
                && m.extended().basic().columns_number()
                == other.extended().basic().columns_number() && m.extended().basic().kind()
                == joint_kind(self.extended().basic().kind(), other.extended().basic().kind())
                && m.extended().basic().elements() == kept(
                m.extended().basic().shape(),
                m.extended().basic().kind(),
                self.extended().tolerance(),
                |p: Position|
                    product_sum(
                        self.extended().basic(),
                        other.extended().basic(),
                        p,
                        self.extended().basic().shape().1 as nat,
                    ),
            ),
    {
        match self.matrix.multiply_by_matrix(&other.matrix) {
            Ok(matrix) => Ok(NewExtendedMatrix { matrix }),
            Err(_) => Err(
                String::from_str(
                    "Extended matrix: Shapes of matrices does not conform to each other!",
                ),
            ),
        }
    }

    /// Exchanges rows and columns; a symmetric matrix stays as it is.
    pub fn transpose(&mut self)
        ensures
            final(self).extended().tolerance() == old(self).extended().tolerance(),
            final(self).extended().basic().kind() == old(self).extended().basic().kind(),
            old(self).extended().basic().kind() == BasicMatrixType::Symmetric
                ==> final(self).extended().basic().rows_number()
                == old(self).extended().basic().rows_number()
                && final(self).extended().basic().columns_number()
                    == old(self).extended().basic().columns_number()
                    && final(self).extended().basic().elements()
                == old(self).extended().basic().elements(),
            old(self).extended().basic().kind() == BasicMatrixType::NonSymmetric
                ==> final(self).extended().basic().rows_number()
                == old(self).extended().basic().columns_number()
                && final(self).extended().basic().columns_number()
                == old(self).extended().basic().rows_number()
                && final(self).extended().basic().elements()
                == rearranged(
                old(self).extended().basic().elements(),
                Rearrangement::Transposed,
            ),
    {
        self.matrix.transpose();
    }

    /// Solves `self * x = other` by Gaussian elimination without pivoting,
    /// over as many unknowns as the matrix has columns. The result has as
    /// many rows as the matrix; below the unknowns it is zero. Fails on a
    /// pivot that is zero, on a matrix with fewer rows than columns, and
    /// on a right-hand side without a column or with more than one.
    pub fn direct_solution(&self, other: &Self) -> (r: Result<Self, String>)
        requires
            obeys_arithmetic::<V>(),
            self.extended().basic().in_range(),
            other.extended().basic().in_range(),
            self.extended().basic().shape().1 >= 1,
        ensures
            self.extended().basic().shape().1 != other.extended().basic().shape().0 ==> (
            r matches Err(e) && e@ == does_not_conform_text()),
            self.extended().basic().shape().1 == other.extended().basic().shape().0
                ==> match outcome(
                self.extended().basic().kind(),
                self.extended().basic().elements(),
                self.extended().basic().shape(),
                other.extended().basic().kind(),
                other.extended().basic().elements(),
                other.extended().basic().shape().1,
            ) {
                Err(text) => r matches Err(e) && e@ == text,
                Ok(solution) => {
                    let shape = Shape(self.extended().basic().shape().0, 1usize);
                    r matches Ok(m) && m.extended().tolerance() == self.extended().tolerance()
                        && m.extended().basic().rows_number()
                        == self.extended().basic().rows_number()
                        && m.extended().basic().columns_number()
                        == other.extended().basic().columns_number()
                        && m.extended().basic().kind() == listing_kind(
                        shape,
                        solution,
                        self.extended().tolerance(),
                    ) && m.extended().basic().elements() == significant_part(
                        shape,
                        solution,
                        self.extended().tolerance(),
                        m.extended().basic().kind(),
                    )
                },
            },
    {
        if self.copy_shape().1.into_usize() != other.copy_shape().0.into_usize() {
            return Err(
                String::from_str(
                    "Extended matrix: Shapes of matrices does not conform to each other!",
                ),
            );
        }
        match self.matrix.direct_solution(&other.matrix) {
            Ok(matrix) => Ok(NewExtendedMatrix { matrix }),
            Err(e) => Err(e),
        }
    }

    /// For each pair of positions adds the value that the submatrix stores
    /// at the second position, if any, to the value at the first.
    pub fn add_submatrix_to_assemblage(
        &mut self,
        submatrix: &mut Self,
        assemblage_positions: &[MatrixElementPosition<T>],
        submatrix_positions: &[MatrixElementPosition<T>],
    )
        requires
            obeys_arithmetic::<V>(),
            old(self).extended().basic().in_range(),
            old(submatrix).extended().basic().in_range(),
            forall|i: int|
                0 <= i < assemblage_positions@.len() ==> (#[trigger] assemblage_positions@[i]).row().number()
                    <= usize::MAX && assemblage_positions@[i].column().number() <= usize::MAX,
            forall|i: int|
                0 <= i < submatrix_positions@.len() ==> (#[trigger] submatrix_positions@[i]).row().number()
                    <= usize::MAX && submatrix_positions@[i].column().number() <= usize::MAX,
        ensures
            final(self).extended().tolerance() == old(self).extended().tolerance(),
            final(submatrix).extended().tolerance() == old(submatrix).extended().tolerance(),
            old(self).extended().basic().kind() == old(submatrix).extended().basic().kind()
                ==> final(submatrix).extended().basic().content()
                    == old(submatrix).extended().basic().content(),
            old(self).extended().basic().kind() != old(submatrix).extended().basic().kind()
                ==> final(submatrix).extended().basic().content() == unfolded(
                old(submatrix).extended().basic().content(),
            ),
            final(self).extended().basic().rows_number() == old(self).extended().basic().rows_number(),
            final(self).extended().basic().columns_number() == old(self).extended().basic().columns_number(),
            final(self).extended().basic().kind() == final(submatrix).extended().basic().kind(),
            final(self).extended().basic().elements() == assembled(
                final(self).extended().basic().kind(),
                if old(self).extended().basic().kind() == old(submatrix).extended().basic().kind() {
                    old(self).extended().basic().elements()
                } else {
                    unfolded(old(self).extended().basic().content()).elements
                },
                final(submatrix).extended().basic().elements(),
                places(assemblage_positions@),
                places(submatrix_positions@),
                smaller(assemblage_positions@.len(), submatrix_positions@.len()),
            ),
    {
        self.matrix.add_submatrix_to_assemblage(
            &mut submatrix.matrix,
            assemblage_positions,
            submatrix_positions,
        );
    }

    /// Turns a general matrix into a symmetric one where its stored values
    /// allow it within the tolerance of the matrix.
    pub fn try_to_symmetrize(&mut self)
        requires
            obeys_arithmetic::<V>(),
        ensures
            final(self).extended().tolerance() == old(self).extended().tolerance(),
            final(self).extended().basic().rows_number() == old(self).extended().basic().rows_number(),
            final(self).extended().basic().columns_number() == old(self).extended().basic().columns_number(),
            old(self).extended().basic().kind() == BasicMatrixType::NonSymmetric && symmetrizable(
                old(self).extended().basic().elements(),
                old(self).extended().tolerance(),
            ) ==> final(self).extended().basic().kind() == BasicMatrixType::Symmetric
                && final(self).extended().basic().elements() == rearranged(
                old(self).extended().basic().elements(),
                Rearrangement::Upper,
            ),
            !(old(self).extended().basic().kind() == BasicMatrixType::NonSymmetric
                && symmetrizable(
                old(self).extended().basic().elements(),
                old(self).extended().tolerance(),
            )) ==> final(self).extended().basic().kind() == old(self).extended().basic().kind()
                && final(self).extended().basic().elements()
                == old(self).extended().basic().elements(),
    {
        let tolerance: V = self.matrix.copy_tolerance();
        self.matrix.try_to_symmetrize(tolerance);
    }

    /// Turns a symmetric matrix into a general one.
    pub fn into_nonsymmetric(&mut self)
        ensures
            final(self).extended().tolerance() == old(self).extended().tolerance(),
            final(self).extended().basic().rows_number() == old(self).extended().basic().rows_number(),
            final(self).extended().basic().columns_number() == old(self).extended().basic().columns_number(),
            final(self).extended().basic().content() == unfolded(
                old(self).extended().basic().content(),
            ),
    {
        self.matrix.into_nonsymmetric();
    }

    /// Takes empty rows and empty columns out of the matrix in pairs and
    /// returns the pairs.
    pub fn remove_zeros_rows_columns(&mut self) -> (r: Vec<MatrixElementPosition<T>>)
        requires
            old(self).extended().basic().in_range(),
        ensures
            final(self).extended().tolerance() == old(self).extended().tolerance(),
            final(self).extended().basic().in_range(),
            ({
                let before = old(self).extended().basic();
                let rows = empty_rows(before.shape(), before.elements(), before.shape().0 as nat);
                let columns = empty_columns(
                    before.shape(),
                    before.elements(),
                    before.shape().1 as nat,
                );
                let pairs = smaller(rows.len(), columns.len());
                &&& r.len() == pairs
                &&& forall|i: int|
                    0 <= i < pairs ==> place_of(#[trigger] r@[i]) == Position(rows[i], columns[i])
                &&& final(self).extended().basic().content() == stripped(
                    before.content(),
                    rows,
                    columns,
                    pairs,
                )
            }),
    {
        self.matrix.remove_zeros_rows_columns()
    }

    /// Takes the given row out of the matrix, which becomes a general one.
    pub fn remove_selected_row(&mut self, row: T)
        requires
            old(self).extended().basic().in_range(),
            old(self).extended().basic().rows_number().number() >= 1,
            row.number() <= usize::MAX,
        ensures
            final(self).extended().tolerance() == old(self).extended().tolerance(),
            final(self).extended().basic().in_range(),
            final(self).extended().basic().content() == without_row(
                old(self).extended().basic().content(),
                row.number() as usize,
            ),
    {
        self.matrix.remove_selected_row(row);
    }

    /// Takes the given column out of the matrix, which becomes a general
    /// one.
    pub fn remove_selected_column(&mut self, column: T)
        requires
            old(self).extended().basic().in_range(),
            old(self).extended().basic().columns_number().number() >= 1,
            column.number() <= usize::MAX,
        ensures
            final(self).extended().tolerance() == old(self).extended().tolerance(),
            final(self).extended().basic().in_range(),
            final(self).extended().basic().content() == without_column(
                old(self).extended().basic().content(),
                column.number() as usize,
            ),
    {
        self.matrix.remove_selected_column(column);
    }

    pub fn copy_shape(&self) -> (r: Shape<T>)
        ensures
            r == Shape(
                self.extended().basic().rows_number(),
                self.extended().basic().columns_number(),
            ),
    {
        self.matrix.copy_shape()
    }

    pub fn ref_matrix_type(&self) -> (r: &BasicMatrixType)
        ensures
            *r == self.extended().basic().kind(),
    {
        self.matrix.ref_matrix_type()
    }

    /// A copy of the stored values.
    pub fn clone_all_elements_values(&self) -> (r: Elements<V>)
        ensures
            r@ == self.extended().basic().elements(),
    {
        self.matrix.ref_elements_values().clone()
    }
    /// The matrix of the given size that stores nothing.
    fn empty(rows_number: T, columns_number: T, tolerance: V) -> (r: ExtendedMatrix<T, V>)
        ensures
            r.tolerance() == tolerance,
            r.basic().rows_number() == rows_number,
            r.basic().columns_number() == columns_number,
            r.basic().kind() == BasicMatrixType::NonSymmetric,
            r.basic().elements() == Map::<Position, V>::empty(),
    {
        ExtendedMatrix::create_default(
            rows_number,
            columns_number,
            BasicMatrixType::NonSymmetric,
            tolerance,
        )
    }

    /// The LU decomposition without pivoting of a square matrix of at
    /// least two rows: the lower factor with ones on its diagonal, and the
    /// upper factor. A symmetric matrix is unfolded first. While the rows
    /// are taken off each other, a new value whose magnitude is not above
    /// the tolerance of the matrix counts as zero.
    pub fn lu_decomposition(&self) -> (r: Result<(Self, Self), String>)
        requires
            obeys_arithmetic::<V>(),
            self.extended().basic().in_range(),
        ensures
            r.is_ok() == (self.extended().basic().shape().0 == self.extended().basic().shape().1
                && self.extended().basic().shape().0 >= 2),
            r matches Err(e) ==> e@ == not_decomposed_text(),
            r matches Ok((l, u)) ==> {
                let n = self.extended().basic().shape().0;
                let rows = dense(unfolded(self.extended().basic().content()).elements, n as nat);
                let tolerance = self.extended().tolerance();
                &&& l.extended().tolerance() == tolerance
                &&& u.extended().tolerance() == tolerance
                &&& l.extended().basic().rows_number() == self.extended().basic().rows_number()
                &&& l.extended().basic().columns_number()
                    == self.extended().basic().columns_number()
                &&& u.extended().basic().rows_number() == self.extended().basic().rows_number()
                &&& u.extended().basic().columns_number()
                    == self.extended().basic().columns_number()
                &&& l.extended().basic().kind() == BasicMatrixType::NonSymmetric
                &&& u.extended().basic().kind() == BasicMatrixType::NonSymmetric
                &&& l.extended().basic().elements() == lower_elements(rows, n, tolerance)
                &&& u.extended().basic().elements() == upper_elements(rows, n, tolerance)
            },
    {
        let shape = self.copy_shape();
        let n: usize = shape.0.into_usize();
        if n != shape.1.into_usize() || n < 2 {
            return Err(String::from_str("Extended matrix: Matrix could not be decomposed!"));
        }
        let tolerance: V = self.matrix.copy_tolerance();
        let mut origin_matrix = self.matrix.duplicate();
        origin_matrix.into_nonsymmetric();
        let mut origin = origin_matrix.dense_readings(n);
        let ghost rows = dense(unfolded(self.extended().basic().content()).elements, n as nat);
        assert(grid(origin@) =~= rows) by {
            assert forall|i: int| 0 <= i < n implies grid(origin@)[i] =~= rows[i] by {}
        }
        let mut lower = origin_matrix.dense_readings(n);
        let mut upper = origin_matrix.dense_readings(n);
        let mut row_number: usize = 0;
        while row_number < n - 1
            invariant
                obeys_arithmetic::<V>(),
                n >= 2,
                row_number <= n - 1,
                is_square(rows, n as nat),
                is_square(grid(origin@), n as nat),
                is_square(grid(lower@), n as nat),
                is_square(grid(upper@), n as nat),
                grid(origin@) == reduced_rows(rows, tolerance, row_number as nat),
                grid(upper@)[0] == rows[0],
                forall|i: int|
                    1 <= i <= row_number ==> #[trigger] grid(upper@)[i] == upper_values(
                        rows,
                        tolerance,
                    )[i],
                forall|i: int, j: int|
                    0 <= j < i < n && j < row_number ==> #[trigger] grid(lower@)[i][j]
                        == lower_values(rows, tolerance)[i][j],
            decreases n - 1 - row_number,
        {
            let ghost earlier = grid(origin@);
            let mut i: usize = row_number + 1;
            while i < n
                invariant
                    obeys_arithmetic::<V>(),
                    n >= 2,
                    row_number < n - 1,
                    row_number < i <= n,
                    is_square(rows, n as nat),
                    is_square(earlier, n as nat),
                    is_square(grid(origin@), n as nat),
                    is_square(grid(lower@), n as nat),
                    is_square(grid(upper@), n as nat),
                    earlier == reduced_rows(rows, tolerance, row_number as nat),
                    forall|r: int|
                        0 <= r < n ==> #[trigger] grid(origin@)[r] == (if row_number < r < i {
                            taken_off(earlier, row_number as int, tolerance)[r]
                        } else {
                            earlier[r]
                        }),
                    grid(upper@)[0] == rows[0],
                    forall|r: int|
                        1 <= r <= row_number ==> #[trigger] grid(upper@)[r] == upper_values(
                            rows,
                            tolerance,
                        )[r],
                    forall|r: int|
                        row_number < r < i ==> #[trigger] grid(upper@)[r] == row_less(
                            earlier,
                            row_number as int,
                            r,
                        ),
                    forall|r: int, c: int|
                        0 <= c < r < n && (c < row_number || (c == row_number && r < i))
                            ==> #[trigger] grid(lower@)[r][c] == lower_values(rows, tolerance)[r][c],
                decreases n - i,
            {
                assert(grid(origin@)[i as int].len() == n && grid(origin@)[row_number as int].len()
                    == n);
                assert(grid(origin@)[i as int] == earlier[i as int]);
                assert(grid(origin@)[row_number as int] == earlier[row_number as int]);
                let coefficient: V = origin[i][row_number] / origin[row_number][row_number];
                let ghost lower_before = grid(lower@);
                assert(grid(lower@)[i as int].len() == n);
                lower[i][row_number] = coefficient;
                assert forall|r: int| 0 <= r < n implies (#[trigger] grid(lower@)[r]).len() == n by {
                    assert(lower_before[r].len() == n);
                }
                assert forall|r: int, c: int|
                    0 <= c < r < n && (c < row_number || (c == row_number && r < i + 1))
                        implies #[trigger] grid(
                    lower@,
                )[r][c] == lower_values(rows, tolerance)[r][c] by {
                    if !(r == i && c == row_number) {
                        assert(lower_before[r][c] == lower_values(rows, tolerance)[r][c]);
                    }
                }
                let ghost origin_before = grid(origin@);
                let ghost upper_before = grid(upper@);
                let mut j: usize = 0;
                while j < n
                    invariant
                        obeys_arithmetic::<V>(),
                        row_number < i < n,
                        j <= n,
                        is_square(earlier, n as nat),
                        is_square(origin_before, n as nat),
                        is_square(upper_before, n as nat),
                        is_square(grid(origin@), n as nat),
                        is_square(grid(upper@), n as nat),
                        origin_before[i as int] == earlier[i as int],
                        origin_before[row_number as int] == earlier[row_number as int],
                        coefficient == row_factor(earlier, row_number as int, i as int),
                        forall|r: int|
                            0 <= r < n && r != i ==> #[trigger] grid(origin@)[r]
                                == origin_before[r],
                        forall|r: int|
                            0 <= r < n && r != i ==> #[trigger] grid(upper@)[r] == upper_before[r],
                        forall|c: int|
                            0 <= c < n ==> #[trigger] grid(origin@)[i as int][c] == (if c < j {
                                chopped(row_less(earlier, row_number as int, i as int)[c], tolerance)
                            } else {
                                earlier[i as int][c]
                            }),
                        forall|c: int|
                            0 <= c < j ==> #[trigger] grid(upper@)[i as int][c] == row_less(
                                earlier,
                                row_number as int,
                                i as int,
                            )[c],
                    decreases n - j,
                {
                    assert(grid(origin@)[i as int].len() == n && grid(
                        origin@,
                    )[row_number as int].len() == n && grid(upper@)[i as int].len() == n);
                    assert(grid(origin@)[row_number as int] == origin_before[row_number as int]);
                    let ghost inner_origin = grid(origin@);
                    let ghost inner_upper = grid(upper@);
                    let value: V = origin[i][j] - origin[row_number][j] * coefficient;
                    assert(value == row_less(earlier, row_number as int, i as int)[j as int]);
                    upper[i][j] = value;
                    if is_significant(value, tolerance) {
                        origin[i][j] = value;
                    } else {
                        origin[i][j] = zero_value();
                    }
                    assert forall|r: int| 0 <= r < n implies (#[trigger] grid(origin@)[r]).len()
                        == n by {
                        assert(inner_origin[r].len() == n);
                    }
                    assert forall|r: int| 0 <= r < n implies (#[trigger] grid(upper@)[r]).len()
                        == n by {
                        assert(inner_upper[r].len() == n);
                    }
                    assert forall|r: int| 0 <= r < n && r != i implies #[trigger] grid(origin@)[r]
                        == origin_before[r] by {
                        assert(inner_origin[r] == origin_before[r]);
                    }
                    assert forall|r: int| 0 <= r < n && r != i implies #[trigger] grid(upper@)[r]
                        == upper_before[r] by {
                        assert(inner_upper[r] == upper_before[r]);
                    }
                    j += 1;
                }
                assert(grid(origin@)[i as int] =~= taken_off(
                    earlier,
                    row_number as int,
                    tolerance,
                )[i as int]);
                assert(grid(upper@)[i as int] =~= row_less(earlier, row_number as int, i as int));
                assert forall|r: int| 0 <= r < n implies #[trigger] grid(origin@)[r] == (
                if row_number < r < i + 1 {
                    taken_off(earlier, row_number as int, tolerance)[r]
                } else {
                    earlier[r]
                }) by {
                    if r != i {
                        assert(grid(origin@)[r] == origin_before[r]);
                    }
                }
                assert(grid(upper@)[0] == upper_before[0]);
                assert forall|r: int| 1 <= r <= row_number implies #[trigger] grid(upper@)[r]
                    == upper_values(rows, tolerance)[r] by {
                    assert(grid(upper@)[r] == upper_before[r]);
                }
                assert forall|r: int| row_number < r < i + 1 implies #[trigger] grid(upper@)[r]
                    == row_less(earlier, row_number as int, r) by {
                    if r != i {
                        assert(grid(upper@)[r] == upper_before[r]);
                    }
                }
                i += 1;
            }
            assert(grid(origin@) =~= taken_off(earlier, row_number as int, tolerance));
            row_number += 1;
            assert forall|r: int| 1 <= r <= row_number implies #[trigger] grid(upper@)[r]
                == upper_values(rows, tolerance)[r] by {
                if r == row_number {
                    assert(grid(upper@)[r] == row_less(earlier, r - 1, r));
                }
            }
        }
        proof {
            assert forall|r: int| 0 <= r < n implies #[trigger] grid(upper@)[r] == upper_values(
                rows,
                tolerance,
            )[r] by {}
            assert(grid(upper@) =~= upper_values(rows, tolerance));
        }
        let mut l_matrix = Self::empty(shape.0, shape.1, tolerance);
        let mut u_matrix = Self::empty(shape.0, shape.1, tolerance);
        u_matrix.store_values(&upper, n, tolerance);
        let one: V = one_value();
        let shape_n = Shape(n, n);
        proof {
            shape.0.lemma_number_bound();
            assert(l_matrix.basic().elements() =~= stored(
                BasicMatrixType::NonSymmetric,
                Map::<Position, V>::empty(),
                lower_values(rows, tolerance),
                lower_triangle(n).intersect(crate::basic_operations_trait::scanned(shape_n, 0, 0)),
                tolerance,
            ));
        }
        let mut i: usize = 0;
        while i < n
            invariant
                obeys_arithmetic::<V>(),
                i <= n,
                n <= T::limit(),
                shape_n == Shape(n, n),
                one == crate::float_trait::one::<V>(),
                is_square(rows, n as nat),
                is_square(grid(lower@), n as nat),
                forall|r: int, c: int|
                    0 <= c < r < n ==> #[trigger] grid(lower@)[r][c] == lower_values(
                        rows,
                        tolerance,
                    )[r][c],
                l_matrix.tolerance() == tolerance,
                l_matrix.basic().rows_number() == shape.0,
                l_matrix.basic().columns_number() == shape.1,
                l_matrix.basic().kind() == BasicMatrixType::NonSymmetric,
                l_matrix.basic().elements() == stored(
                    BasicMatrixType::NonSymmetric,
                    Map::<Position, V>::empty(),
                    lower_values(rows, tolerance),
                    lower_triangle(n).intersect(
                        crate::basic_operations_trait::scanned(shape_n, i, 0),
                    ),
                    tolerance,
                ),
            decreases n - i,
        {
            let mut j: usize = 0;
            while j <= i
                invariant
                    obeys_arithmetic::<V>(),
                    i < n,
                    j <= i + 1,
                    n <= T::limit(),
                    shape_n == Shape(n, n),
                    one == crate::float_trait::one::<V>(),
                    is_square(rows, n as nat),
                    is_square(grid(lower@), n as nat),
                    forall|r: int, c: int|
                        0 <= c < r < n ==> #[trigger] grid(lower@)[r][c] == lower_values(
                            rows,
                            tolerance,
                        )[r][c],
                    l_matrix.tolerance() == tolerance,
                    l_matrix.basic().rows_number() == shape.0,
                    l_matrix.basic().columns_number() == shape.1,
                    l_matrix.basic().kind() == BasicMatrixType::NonSymmetric,
                    l_matrix.basic().elements() == stored(
                        BasicMatrixType::NonSymmetric,
                        Map::<Position, V>::empty(),
                        lower_values(rows, tolerance),
                        lower_triangle(n).intersect(
                            crate::basic_operations_trait::scanned(shape_n, i, j),
                        ),
                        tolerance,
                    ),
                decreases i + 1 - j,
            {
                assert(grid(lower@)[i as int].len() == n);
                let value: V = if j == i {
                    one
                } else {
                    lower[i][j]
                };
                assert(value == lower_values(rows, tolerance)[i as int][j as int]);
                let position = MatrixElementPosition::create(T::from_usize(i), T::from_usize(j));
                l_matrix.insert_matrix_element(position, value, tolerance);
                j += 1;
                assert(l_matrix.basic().elements() =~= stored(
                    BasicMatrixType::NonSymmetric,
                    Map::<Position, V>::empty(),
                    lower_values(rows, tolerance),
                    lower_triangle(n).intersect(
                        crate::basic_operations_trait::scanned(shape_n, i, j),
                    ),
                    tolerance,
                ));
            }
            i += 1;
            assert(l_matrix.basic().elements() =~= stored(
                BasicMatrixType::NonSymmetric,
                Map::<Position, V>::empty(),
                lower_values(rows, tolerance),
                lower_triangle(n).intersect(crate::basic_operations_trait::scanned(shape_n, i, 0)),
                tolerance,
            ));
        }
        assert(l_matrix.basic().elements() =~= lower_elements(rows, n, tolerance));
        Ok((NewExtendedMatrix { matrix: l_matrix }, NewExtendedMatrix { matrix: u_matrix }))
    }

    /// The product of the diagonal of the upper factor of the LU
    /// decomposition.
    pub fn determinant(&self) -> (r: Result<V, String>)
        requires
            obeys_arithmetic::<V>(),
            self.extended().basic().in_range(),
        ensures
            r.is_ok() == (self.extended().basic().shape().0 == self.extended().basic().shape().1
                && self.extended().basic().shape().0 >= 2),
            r matches Err(e) ==> e@ == not_decomposed_text(),
            r matches Ok(d) ==> d == diagonal_readings_product(
                upper_elements(
                    dense(
                        unfolded(self.extended().basic().content()).elements,
                        self.extended().basic().shape().0 as nat,
                    ),
                    self.extended().basic().shape().0,
                    self.extended().tolerance(),
                ),
                self.extended().basic().shape().0 as nat,
            ),
    {
        let u_matrix = match self.lu_decomposition() {
            Ok(factors) => factors.1,
            Err(e) => {
                return Err(e);
            },
        };
        let n: usize = u_matrix.copy_shape().0.into_usize();
        let mut determinant: V = one_value();
        let mut i: usize = 0;
        while i < n
            invariant
                obeys_arithmetic::<V>(),
                u_matrix.extended().basic().in_range(),
                u_matrix.extended().basic().shape() == Shape(n, n),
                u_matrix.extended().basic().kind() == BasicMatrixType::NonSymmetric,
                i <= n,
                determinant == diagonal_readings_product(
                    u_matrix.extended().basic().elements(),
                    i as nat,
                ),
            decreases n - i,
        {
            let value: V = u_matrix.matrix.value_at(i, i);
            determinant = determinant * value;
            i += 1;
        }
        Ok(determinant)
    }
    /// The inverse of a square matrix of at least two rows, found column by
    /// column from its LU decomposition without pivoting: for each unit
    /// vector the lower factor is solved, and the upper factor for what is
    /// stored of that solution. Fails on a zero pivot in one of the
    /// factors.
    pub fn inverse(&self) -> (r: Result<Self, String>)
        requires
            obeys_arithmetic::<V>(),
            self.extended().basic().in_range(),
        ensures
            !(self.extended().basic().shape().0 == self.extended().basic().shape().1
                && self.extended().basic().shape().0 >= 2) ==> (r matches Err(e) && e@
                == not_decomposed_text()),
            self.extended().basic().shape().0 == self.extended().basic().shape().1
                && self.extended().basic().shape().0 >= 2 ==> {
                let n = self.extended().basic().shape().0;
                let rows = dense(unfolded(self.extended().basic().content()).elements, n as nat);
                let tolerance = self.extended().tolerance();
                let lower = lower_elements(rows, n, tolerance);
                let upper = upper_elements(rows, n, tolerance);
                if forall|k: usize|
                    k < n ==> (#[trigger] inverse_column(lower, upper, k, n, tolerance)).is_some() {
                    r matches Ok(m) && m.extended().tolerance() == tolerance
                        && m.extended().basic().rows_number()
                        == self.extended().basic().rows_number()
                        && m.extended().basic().columns_number()
                        == self.extended().basic().columns_number()
                        && m.extended().basic().kind() == BasicMatrixType::NonSymmetric
                        && m.extended().basic().elements() == stored(
                        BasicMatrixType::NonSymmetric,
                        Map::<Position, V>::empty(),
                        inverse_columns(lower, upper, n, tolerance),
                        square(n),
                        tolerance,
                    )
                } else {
                    r matches Err(e) && e@ == singular_text()
                }
            },
    {
        let (l_matrix, u_matrix) = match self.lu_decomposition() {
            Ok(factors) => factors,
            Err(e) => {
                return Err(e);
            },
        };
        let shape = self.copy_shape();
        let n: usize = shape.0.into_usize();
        let tolerance: V = self.matrix.copy_tolerance();
        let ghost lower = l_matrix.extended().basic().elements();
        let ghost upper = u_matrix.extended().basic().elements();
        proof {
            shape.0.lemma_number_bound();
        }
        let mut values: Vec<Vec<V>> = Vec::new();
        let mut i: usize = 0;
        while i < n
            invariant
                obeys_arithmetic::<V>(),
                i <= n,
                values.len() == i,
                forall|r: int| 0 <= r < i ==> (#[trigger] values@[r]).len() == n,
            decreases n - i,
        {
            values.push(zeros(n));
            i += 1;
        }
        let mut k: usize = 0;
        while k < n
            invariant
                obeys_arithmetic::<V>(),
                n >= 2,
                n <= T::limit(),
                k <= n,
                shape == Shape(
                    l_matrix.extended().basic().rows_number(),
                    l_matrix.extended().basic().columns_number(),
                ),
                l_matrix.extended().basic().in_range(),
                u_matrix.extended().basic().in_range(),
                l_matrix.extended().basic().shape() == Shape(n, n),
                u_matrix.extended().basic().shape() == Shape(n, n),
                l_matrix.extended().basic().kind() == BasicMatrixType::NonSymmetric,
                u_matrix.extended().basic().kind() == BasicMatrixType::NonSymmetric,
                l_matrix.extended().tolerance() == tolerance,
                u_matrix.extended().tolerance() == tolerance,
                lower == l_matrix.extended().basic().elements(),
                upper == u_matrix.extended().basic().elements(),
                self.extended().basic().shape() == Shape(n, n),
                tolerance == self.extended().tolerance(),
                lower == lower_elements(
                    dense(unfolded(self.extended().basic().content()).elements, n as nat),
                    n,
                    tolerance,
                ),
                upper == upper_elements(
                    dense(unfolded(self.extended().basic().content()).elements, n as nat),
                    n,
                    tolerance,
                ),
                values.len() == n,
                forall|r: int| 0 <= r < n ==> (#[trigger] values@[r]).len() == n,
                forall|c: usize|
                    c < k ==> (#[trigger] inverse_column(lower, upper, c, n, tolerance)).is_some(),
                forall|r: int, c: int|
                    0 <= r < n && 0 <= c < k ==> #[trigger] values@[r]@[c] == inverse_columns(
                        lower,
                        upper,
                        n,
                        tolerance,
                    )[r][c],
            decreases n - k,
        {
            let mut unit_column = Self::empty(shape.1, T::from_usize(1), tolerance);
            unit_column.insert_matrix_element(
                MatrixElementPosition::create(T::from_usize(k), T::from_usize(0)),
                one_value(),
                tolerance,
            );
            let unit = NewExtendedMatrix { matrix: unit_column };
            let ghost first = solved(
                BasicMatrixType::NonSymmetric,
                lower,
                BasicMatrixType::NonSymmetric,
                unit.extended().basic().elements(),
                n,
            );
            proof {
                if first.is_some() {
                    assert(padded(first.unwrap(), n) =~= first.unwrap());
                }
            }
            let interim_inverse_column = match l_matrix.direct_solution(&unit) {
                Ok(column) => column,
                Err(e) => {
                    assert(inverse_column(lower, upper, k, n, tolerance).is_none());
                    return Err(e);
                },
            };
            let ghost second = solved(
                BasicMatrixType::NonSymmetric,
                upper,
                BasicMatrixType::NonSymmetric,
                interim_inverse_column.extended().basic().elements(),
                n,
            );
            proof {
                assert(interim_inverse_column.extended().basic().elements() == column_of(
                    first.unwrap(),
                    n,
                    tolerance,
                ));
                if second.is_some() {
                    assert(padded(second.unwrap(), n) =~= second.unwrap());
                }
            }
            let inverse_column_matrix = match u_matrix.direct_solution(&interim_inverse_column) {
                Ok(column) => column,
                Err(e) => {
                    assert(inverse_column(lower, upper, k, n, tolerance).is_none());
                    return Err(e);
                },
            };
            let ghost solution = inverse_column(lower, upper, k, n, tolerance).unwrap();
            assert(inverse_column(lower, upper, k, n, tolerance).is_some());
            assert(inverse_column_matrix.extended().basic().elements() == column_of(
                solution,
                n,
                tolerance,
            ));
            let mut i: usize = 0;
            while i < n
                invariant
                    obeys_arithmetic::<V>(),
                    i <= n,
                    k < n,
                    n <= T::limit(),
                    inverse_column_matrix.extended().basic().in_range(),
                    inverse_column_matrix.extended().basic().shape() == Shape(n, 1usize),
                    inverse_column_matrix.extended().basic().kind()
                        == BasicMatrixType::NonSymmetric,
                    inverse_column_matrix.extended().basic().elements() == column_of(
                        solution,
                        n,
                        tolerance,
                    ),
                    solution == inverse_column(lower, upper, k, n, tolerance).unwrap(),
                    solution.len() == n,
                    values.len() == n,
                    forall|r: int| 0 <= r < n ==> (#[trigger] values@[r]).len() == n,
                    forall|r: int, c: int|
                        0 <= r < n && 0 <= c < k ==> #[trigger] values@[r]@[c]
                            == inverse_columns(lower, upper, n, tolerance)[r][c],
                    forall|r: int|
                        0 <= r < i ==> (#[trigger] values@[r])@[k as int] == inverse_columns(
                            lower,
                            upper,
                            n,
                            tolerance,
                        )[r][k as int],
                decreases n - i,
            {
                let value: V = inverse_column_matrix.matrix.value_at(i, 0);
                proof {
                    assert(crate::flat::flat_index(1, Position(i, 0)) == i) by (nonlinear_arith);
                }
                assert(value == chopped(solution[i as int], tolerance));
                let ghost before = values@;
                assert(values@[i as int].len() == n);
                values[i][k] = value;
                assert forall|r: int| 0 <= r < n implies (#[trigger] values@[r]).len() == n by {
                    assert(before[r].len() == n);
                }
                assert forall|r: int, c: int|
                    0 <= r < n && 0 <= c < k implies #[trigger] values@[r]@[c] == inverse_columns(
                    lower,
                    upper,
                    n,
                    tolerance,
                )[r][c] by {
                    assert(before[r]@[c] == inverse_columns(lower, upper, n, tolerance)[r][c]);
                }
                assert forall|r: int| 0 <= r < i + 1 implies (#[trigger] values@[r])@[k as int]
                    == inverse_columns(lower, upper, n, tolerance)[r][k as int] by {
                    if r < i {
                        assert(before[r]@[k as int] == inverse_columns(
                            lower,
                            upper,
                            n,
                            tolerance,
                        )[r][k as int]);
                    }
                }
                i += 1;
            }
            k += 1;
        }
        assert(grid(values@) =~= inverse_columns(lower, upper, n, tolerance)) by {
            assert forall|r: int| 0 <= r < n implies grid(values@)[r] =~= inverse_columns(
                lower,
                upper,
                n,
                tolerance,
            )[r] by {
                assert(values@[r].len() == n);
            }
        }
        let mut inverse_matrix = Self::empty(shape.0, shape.1, tolerance);
        inverse_matrix.store_values(&values, n, tolerance);
        Ok(NewExtendedMatrix { matrix: inverse_matrix })
    }
}

} // verus!
