use vstd::prelude::*;
use vstd::std_specs::ops::{AddSpec, MulSpec, SubSpec};
use crate::elimination::{
    grid, is_order, is_square, lup_decomposed, lup_fault, lup_solved, unarranged, unit, Lup,
};
use crate::square_matrix_trait::{dense, inverse_value, zeros};
use vstd::string::StringExecFns;
use crate::basic_matrix::{
    incorrect_number_text, listing_kind, significant_part,
    assigned, symmetrizable, unfolded, without_column, without_row, BasicMatrix,
    BasicMatrixType, Content, empty_columns, empty_rows, out_of_size_text, place_of, smaller,
    stripped,
};
use crate::basic_operations_trait::{scaled, scanned};
use crate::elements::Elements;
use crate::float_trait::{
    obeys_arithmetic, one, one_value, significant, zero, zero_value, FloatTrait,
};
use crate::matrix_element_position::MatrixElementPosition;
use crate::messages::{decimal, decimal_string};
use crate::operation::Operation;
use crate::position::Position;
use crate::rearrangement::{rearranged, Rearrangement};
use crate::shape::Shape;
use crate::uint_trait::UIntTrait;

verus! {

/// A sparse matrix with the tolerance below which it takes a value for
/// zero.
#[derive(Clone, Debug, PartialEq)]
pub struct ExtendedMatrix<T: UIntTrait, V: FloatTrait> {
    pub(crate) tolerance: V,
    pub(crate) basic_matrix: BasicMatrix<T, V>,
}

/// "Extended matrix: Shapes of matrices do not conform to each other!"
pub open spec fn shapes_text() -> Seq<char> {
    "Extended matrix: Shapes of matrices do not conform to each other!"@
}

/// "Extended matrix: Could not find determinant of matrix! Rows number:
/// R, columns number: C"
pub open spec fn determinant_2x2_text(rows: nat, columns: nat) -> Seq<char> {
    "Extended matrix: Could not find determinant of matrix! Rows number: "@ + decimal(rows)
        + ", columns number: "@ + decimal(columns)
}

/// The kind of the sum or product of two matrices: symmetric where both
/// are.
pub open spec fn joint_kind(lhs: BasicMatrixType, rhs: BasicMatrixType) -> BasicMatrixType {
    if lhs == BasicMatrixType::Symmetric && rhs == BasicMatrixType::Symmetric {
        BasicMatrixType::Symmetric
    } else {
        BasicMatrixType::NonSymmetric
    }
}

/// What a matrix of the given kind keeps of the values that `value` gives
/// for the positions of the shape: those with a magnitude above the
/// tolerance, and of a symmetric matrix those on and above the diagonal.
pub open spec fn kept<V: FloatTrait>(
    shape: Shape,
    kind: BasicMatrixType,
    tolerance: V,
    value: spec_fn(Position) -> V,
) -> Map<Position, V> {
    Map::new(
        |p: Position|
            shape.holds(p) && significant(value(p), tolerance) && (kind
                == BasicMatrixType::NonSymmetric || p.0 <= p.1),
        |p: Position| value(p),
    )
}

/// The sum of `lhs(row, k) * rhs(k, column)` over `k` below `upto`, taken
/// from the left, starting from zero.
pub open spec fn product_sum<T: UIntTrait, V: FloatTrait>(
    lhs: BasicMatrix<T, V>,
    rhs: BasicMatrix<T, V>,
    position: Position,
    upto: nat,
) -> V
    decreases upto,
{
    if upto == 0 {
        zero::<V>()
    } else {
        product_sum(lhs, rhs, position, (upto - 1) as nat).add_spec(
            lhs.reading(Position(position.0, (upto - 1) as usize)).mul_spec(
                rhs.reading(Position((upto - 1) as usize, position.1)),
            ),
        )
    }
}

/// The stored values after the first `upto` pairs of positions were
/// assembled: for each pair the value that the submatrix stores at the
/// second position, if any, is added at the first.
pub open spec fn assembled<V: FloatTrait>(
    kind: BasicMatrixType,
    elements: Map<Position, V>,
    submatrix: Map<Position, V>,
    targets: Seq<Position>,
    sources: Seq<Position>,
    upto: nat,
) -> Map<Position, V>
    decreases upto,
{
    if upto == 0 {
        elements
    } else {
        let earlier = assembled(kind, elements, submatrix, targets, sources, (upto - 1) as nat);
        if submatrix.contains_key(sources[upto - 1]) {
            assigned(
                kind,
                earlier,
                targets[upto - 1],
                submatrix[sources[upto - 1]],
                Operation::Addition,
            )
        } else {
            earlier
        }
    }
}

/// What goes wrong in a decomposition.
#[derive(Debug, Clone, PartialEq)]
pub enum Failure<V> {
    /// The matrix has not the shape for it; the message says so.
    Message(String),
    /// A pivot is too small against the scale of its row; this is the
    /// ratio of the two.
    SmallPivot(V),
}

/// "Extended matrix: Could not decompose matrix! Rows number R does not
/// match to columns number C"
pub open spec fn decompose_text(rows: nat, columns: nat) -> Seq<char> {
    "Extended matrix: Could not decompose matrix! Rows number "@ + decimal(rows)
        + " does not match to columns number "@ + decimal(columns)
}

/// "Extended matrix: Could not find determinant of matrix! Rows number R
/// does not match to columns number C"
pub open spec fn determinant_text(rows: nat, columns: nat) -> Seq<char> {
    "Extended matrix: Could not find determinant of matrix! Rows number "@ + decimal(rows)
        + " does not match to columns number "@ + decimal(columns)
}

/// What the first `n` rows and columns of a matrix read as.
pub open spec fn readings<T: UIntTrait, V: FloatTrait>(basic: BasicMatrix<T, V>, n: nat) -> Seq<
    Seq<V>,
> {
    Seq::new(
        n,
        |i: int| Seq::new(n, |j: int| basic.reading(Position(i as usize, j as usize))),
    )
}

/// A matrix of the kind takes `value` at `position`: its magnitude is
/// above the tolerance, and the position is not below the diagonal of a
/// symmetric matrix.
pub open spec fn takes<V: FloatTrait>(
    kind: BasicMatrixType,
    position: Position,
    value: V,
    tolerance: V,
) -> bool {
    significant(value, tolerance) && (kind == BasicMatrixType::NonSymmetric || position.0
        <= position.1)
}

/// The stored values after each of the `values` was given to the matrix
/// for its position in the region: a position keeps what it held where the
/// matrix does not take the value.
pub open spec fn stored<V: FloatTrait>(
    kind: BasicMatrixType,
    elements: Map<Position, V>,
    values: Seq<Seq<V>>,
    region: Set<Position>,
    tolerance: V,
) -> Map<Position, V> {
    Map::new(
        |p: Position|
            elements.contains_key(p) || (region.contains(p) && takes(
                kind,
                p,
                values[p.0 as int][p.1 as int],
                tolerance,
            )),
        |p: Position|
            if region.contains(p) && takes(kind, p, values[p.0 as int][p.1 as int], tolerance) {
                values[p.0 as int][p.1 as int]
            } else {
                elements[p]
            },
    )
}

/// What the positions of a matrix read as, by position.
pub open spec fn reading_map<T: UIntTrait, V: FloatTrait>(basic: BasicMatrix<T, V>) -> Map<
    Position,
    V,
> {
    Map::new(|p: Position| basic.shape().holds(p), |p: Position| basic.reading(p))
}

/// The positions of the first `n` rows and columns.
pub open spec fn square(n: usize) -> Set<Position> {
    Set::new(|p: Position| p.0 < n && p.1 < n)
}

/// The product of what the first `upto` diagonal positions read as, taken
/// from the top, starting from one.
pub open spec fn diagonal_readings_product<V: FloatTrait>(
    elements: Map<Position, V>,
    upto: nat,
) -> V
    decreases upto,
{
    if upto == 0 {
        one::<V>()
    } else {
        diagonal_readings_product(elements, (upto - 1) as nat).mul_spec(
            crate::basic_operations_trait::value_or_zero(
                elements,
                Position((upto - 1) as usize, (upto - 1) as usize),
            ),
        )
    }
}

/// "Extended matrix: Inverse matrix calculation: Ill conditioned system:
/// "Basic matrix: Inputted indexes are out of matrix size!""
pub open spec fn inverse_out_of_size_text() -> Seq<char> {
    "Extended matrix: Inverse matrix calculation: Ill conditioned system: \"Basic matrix: Inputted indexes are out of matrix size!\""@
}

/// The stored values of the decomposition of a matrix with the given
/// content, of which a symmetric one is unfolded first: nothing where a
/// pivot is too small.
pub open spec fn decomposed_elements<V: FloatTrait>(content: Content<V>, tolerance: V) -> Option<
    Map<Position, V>,
> {
    let start = unfolded(content).elements;
    match lup_decomposed(dense(start, content.shape.0 as nat), tolerance, Some(tolerance)) {
        None => None,
        Some(state) => Some(
            stored(
                BasicMatrixType::NonSymmetric,
                start,
                unarranged(state.rows, state.order),
                square(content.shape.0),
                tolerance,
            ),
        ),
    }
}

/// What a matrix of the given shape stores that was made from a listing
/// of zeros and then unfolded.
pub open spec fn zero_base<V: FloatTrait>(shape: Shape, tolerance: V) -> Map<Position, V> {
    let listing = Seq::new((shape.0 * shape.1) as nat, |i: int| zero::<V>());
    let kind = listing_kind(shape, listing, tolerance);
    unfolded(
        Content { shape, kind, elements: significant_part(shape, listing, tolerance, kind) },
    ).elements
}

/// The values of the inverse that a decomposition gives, row by row.
pub open spec fn inverse_values<V: FloatTrait>(state: Lup<V>) -> Seq<Seq<V>> {
    Seq::new(
        state.rows.len(),
        |i: int|
            Seq::new(
                state.rows.len(),
                |j: int| inverse_value(state, Position(i as usize, j as usize)),
            ),
    )
}

/// The places of a list of positions.
pub open spec fn places<T: UIntTrait>(positions: Seq<MatrixElementPosition<T>>) -> Seq<Position> {
    Seq::new(positions.len(), |i: int| place_of(positions[i]))
}

impl<T: UIntTrait, V: FloatTrait> ExtendedMatrix<T, V> {
    pub closed spec fn tolerance(&self) -> V {
        self.tolerance
    }

    pub closed spec fn basic(&self) -> BasicMatrix<T, V> {
        self.basic_matrix
    }

    /// The matrix of the given size that `all_elements_values` lists row
    /// by row. Fails where the listing is too short.
    pub fn create(rows_number: T, columns_number: T, all_elements_values: Vec<V>, tolerance: V) -> (r:
        Result<Self, String>)
        requires
            obeys_arithmetic::<V>(),
            rows_number.number() * columns_number.number() <= usize::MAX,
            rows_number.number() <= usize::MAX,
            columns_number.number() <= usize::MAX,
        ensures
            r.is_ok() == (rows_number.number() * columns_number.number()
                <= all_elements_values.len()),
            r matches Err(e) ==> e@ == crate::basic_matrix::incorrect_number_text(),
            r matches Ok(m) ==> m.tolerance() == tolerance && m.basic().rows_number()
                == rows_number && m.basic().columns_number() == columns_number && m.basic().kind()
                == crate::basic_matrix::listing_kind(
                m.basic().shape(),
                all_elements_values@,
                tolerance,
            ) && m.basic().elements() == crate::basic_matrix::significant_part(
                m.basic().shape(),
                all_elements_values@,
                tolerance,
                m.basic().kind(),
            ),
    {
        match BasicMatrix::create(rows_number, columns_number, all_elements_values, tolerance) {
            Ok(basic_matrix) => Ok(ExtendedMatrix { tolerance, basic_matrix }),
            Err(e) => Err(e),
        }
    }

    /// Whether the shapes of `self` and `other` admit `operation`; if so,
    /// the common dimension and the shape of the result.
    pub fn matrices_dimensions_conformity_check(&self, other: &Self, operation: Operation) -> (r:
        Result<(T, Shape<T>), String>)
        requires
            self.basic().in_range(),
            other.basic().in_range(),
        ensures
            r.is_ok() == crate::basic_operations_trait::conform(
                self.basic().shape(),
                other.basic().shape(),
                operation,
            ),
            r matches Err(e) ==> e@ == shapes_text(),
            r matches Ok(found) ==> found.0 == self.basic().columns_number() && found.1 == Shape(
                self.basic().rows_number(),
                other.basic().columns_number(),
            ),
    {
        let lhs_shape = self.copy_shape();
        let rhs_shape = other.copy_shape();
        let conform: bool = match operation {
            Operation::Multiplication => lhs_shape.1.into_usize() == rhs_shape.0.into_usize(),
            Operation::Addition | Operation::Subtraction => lhs_shape.0.into_usize()
                == rhs_shape.0.into_usize() && lhs_shape.1.into_usize()
                == rhs_shape.1.into_usize(),
        };
        if !conform {
            return Err(
                String::from_str(
                    "Extended matrix: Shapes of matrices do not conform to each other!",
                ),
            );
        }
        Ok((lhs_shape.1, Shape(lhs_shape.0, rhs_shape.1)))
    }

    /// The value that the sum or the difference has at `position`.
    pub open spec fn combined(&self, other: &Self, subtract: bool, position: Position) -> V {
        if subtract {
            self.basic().reading(position).sub_spec(other.basic().reading(position))
        } else {
            self.basic().reading(position).add_spec(other.basic().reading(position))
        }
    }

    fn add_subtract_matrix(&self, other: &Self, subtract: bool) -> (r: Result<Self, String>)
        requires
            obeys_arithmetic::<V>(),
            self.basic().in_range(),
            other.basic().in_range(),
        ensures
            r.is_ok() == (self.basic().shape() == other.basic().shape()),
            r matches Err(e) ==> e@ == shapes_text(),
            r matches Ok(m) ==> m.tolerance() == self.tolerance() && m.basic().rows_number()
                == self.basic().rows_number() && m.basic().columns_number()
                == other.basic().columns_number() && m.basic().kind() == joint_kind(
                self.basic().kind(),
                other.basic().kind(),
            ) && m.basic().elements() == kept(
                self.basic().shape(),
                m.basic().kind(),
                self.tolerance(),
                |p: Position| self.combined(other, subtract, p),
            ),
    {
        let shape = match self.matrices_dimensions_conformity_check(other, Operation::Addition) {
            Ok(found) => found.1,
            Err(e) => {
                return Err(e);
            },
        };
        let basic_matrix_type = match (self.ref_matrix_type(), other.ref_matrix_type()) {
            (BasicMatrixType::Symmetric, BasicMatrixType::Symmetric) => BasicMatrixType::Symmetric,
            _ => BasicMatrixType::NonSymmetric,
        };
        let mut basic_matrix: BasicMatrix<T, V> = BasicMatrix::create_default(
            shape.0,
            shape.1,
            basic_matrix_type,
        );
        let rows: usize = shape.0.into_usize();
        let columns: usize = shape.1.into_usize();
        let extent = Shape(rows, columns);
        let ghost value = |p: Position| self.combined(other, subtract, p);
        let ghost full = kept(extent, basic_matrix_type, self.tolerance(), value);
        proof {
            shape.0.lemma_number_bound();
            shape.1.lemma_number_bound();
        }
        let mut row: usize = 0;
        while row < rows
            invariant
                obeys_arithmetic::<V>(),
                self.basic().in_range(),
                other.basic().in_range(),
                extent == self.basic().shape(),
                extent == other.basic().shape(),
                extent == Shape(rows, columns),
                rows <= T::limit(),
                columns <= T::limit(),
                value == (|p: Position| self.combined(other, subtract, p)),
                full == kept(extent, basic_matrix_type, self.tolerance(), value),
                row <= rows,
                basic_matrix.rows_number() == shape.0,
                basic_matrix.columns_number() == shape.1,
                basic_matrix.kind() == basic_matrix_type,
                basic_matrix.elements() == full.restrict(scanned(extent, row, 0)),
            decreases rows - row,
        {
            let mut column: usize = 0;
            while column < columns
                invariant
                    obeys_arithmetic::<V>(),
                    self.basic().in_range(),
                    other.basic().in_range(),
                    extent == self.basic().shape(),
                    extent == other.basic().shape(),
                    extent == Shape(rows, columns),
                    rows <= T::limit(),
                    columns <= T::limit(),
                    value == (|p: Position| self.combined(other, subtract, p)),
                    full == kept(extent, basic_matrix_type, self.tolerance(), value),
                    row < rows,
                    column <= columns,
                    basic_matrix.rows_number() == shape.0,
                    basic_matrix.columns_number() == shape.1,
                    basic_matrix.kind() == basic_matrix_type,
                    basic_matrix.elements() == full.restrict(scanned(extent, row, column)),
                decreases columns - column,
            {
                let position = MatrixElementPosition::create(
                    T::from_usize(row),
                    T::from_usize(column),
                );
                let lhs: V = match self.basic_matrix.copy_element_value_or_zero(position) {
                    Ok(v) => v,
                    Err(_) => zero_value(),
                };
                let rhs: V = match other.basic_matrix.copy_element_value_or_zero(position) {
                    Ok(v) => v,
                    Err(_) => zero_value(),
                };
                let element_value: V = if subtract {
                    lhs - rhs
                } else {
                    lhs + rhs
                };
                assert(element_value == value(Position(row, column)));
                basic_matrix.insert_matrix_element(position, element_value, self.tolerance);
                column += 1;
                assert(basic_matrix.elements() =~= full.restrict(scanned(extent, row, column)));
            }
            row += 1;
            assert(basic_matrix.elements() =~= full.restrict(scanned(extent, row, 0)));
        }
        assert(basic_matrix.elements() =~= full);
        Ok(ExtendedMatrix { tolerance: self.tolerance, basic_matrix })
    }

    /// The sum of two matrices of the same shape.
    pub fn add_matrix(&self, other: &Self) -> (r: Result<Self, String>)
        requires
            obeys_arithmetic::<V>(),
            self.basic().in_range(),
            other.basic().in_range(),
        ensures
            r.is_ok() == (self.basic().shape() == other.basic().shape()),
            r matches Err(e) ==> e@ == shapes_text(),
            r matches Ok(m) ==> m.tolerance() == self.tolerance() && m.basic().rows_number()
                == self.basic().rows_number() && m.basic().columns_number()
                == other.basic().columns_number() && m.basic().kind() == joint_kind(
                self.basic().kind(),
                other.basic().kind(),
            ) && m.basic().elements() == kept(
                self.basic().shape(),
                m.basic().kind(),
                self.tolerance(),
                |p: Position| self.combined(other, false, p),
            ),
    {
        self.add_subtract_matrix(other, false)
    }

    /// The difference of two matrices of the same shape.
    pub fn subtract_matrix(&self, other: &Self) -> (r: Result<Self, String>)
        requires
            obeys_arithmetic::<V>(),
            self.basic().in_range(),
            other.basic().in_range(),
        ensures
            r.is_ok() == (self.basic().shape() == other.basic().shape()),
            r matches Err(e) ==> e@ == shapes_text(),
            r matches Ok(m) ==> m.tolerance() == self.tolerance() && m.basic().rows_number()
                == self.basic().rows_number() && m.basic().columns_number()
                == other.basic().columns_number() && m.basic().kind() == joint_kind(
                self.basic().kind(),
                other.basic().kind(),
            ) && m.basic().elements() == kept(
                self.basic().shape(),
                m.basic().kind(),
                self.tolerance(),
                |p: Position| self.combined(other, true, p),
            ),
    {
        self.add_subtract_matrix(other, true)
    }

    /// Multiplies every stored value by `number`.
    pub fn multiply_by_number(&mut self, number: V)
        requires
            obeys_arithmetic::<V>(),
        ensures
            final(self).tolerance() == old(self).tolerance(),
            final(self).basic().rows_number() == old(self).basic().rows_number(),
            final(self).basic().columns_number() == old(self).basic().columns_number(),
            final(self).basic().kind() == old(self).basic().kind(),
            final(self).basic().elements() == scaled(old(self).basic().elements(), number),
    {
        self.basic_matrix.multiply_by_number(number);
    }

    /// The product of two matrices, the first with as many columns as the
    /// second has rows.
    pub fn multiply_by_matrix(&self, other: &Self) -> (r: Result<Self, String>)
        requires
            obeys_arithmetic::<V>(),
            self.basic().in_range(),
            other.basic().in_range(),
        ensures
            r.is_ok() == (self.basic().shape().1 == other.basic().shape().0),
            r matches Err(e) ==> e@ == shapes_text(),
            r matches Ok(m) ==> m.tolerance() == self.tolerance() && m.basic().rows_number()
                == self.basic().rows_number() && m.basic().columns_number()
                == other.basic().columns_number() && m.basic().kind() == joint_kind(
                self.basic().kind(),
                other.basic().kind(),
            ) && m.basic().elements() == kept(
                m.basic().shape(),
                m.basic().kind(),
                self.tolerance(),
                |p: Position|
                    product_sum(
                        self.basic(),
                        other.basic(),
                        p,
                        self.basic().shape().1 as nat,
                    ),
            ),
    {
        let (basic_dimension, shape) = match self.matrices_dimensions_conformity_check(
            other,
            Operation::Multiplication,
        ) {
            Ok(found) => found,
            Err(e) => {
                return Err(e);
            },
        };
        let basic_matrix_type = match (self.ref_matrix_type(), other.ref_matrix_type()) {
            (BasicMatrixType::Symmetric, BasicMatrixType::Symmetric) => BasicMatrixType::Symmetric,
            _ => BasicMatrixType::NonSymmetric,
        };
        let mut basic_matrix: BasicMatrix<T, V> = BasicMatrix::create_default(
            shape.0,
            shape.1,
            basic_matrix_type,
        );
        let rows: usize = shape.0.into_usize();
        let columns: usize = shape.1.into_usize();
        let inner: usize = basic_dimension.into_usize();
        let extent = Shape(rows, columns);
        let ghost value = |p: Position|
            product_sum(self.basic(), other.basic(), p, self.basic().shape().1 as nat);
        let ghost full = kept(extent, basic_matrix_type, self.tolerance(), value);
        proof {
            shape.0.lemma_number_bound();
            shape.1.lemma_number_bound();
            basic_dimension.lemma_number_bound();
        }
        let mut row: usize = 0;
        while row < rows
            invariant
                obeys_arithmetic::<V>(),
                self.basic().in_range(),
                other.basic().in_range(),
                self.basic().shape() == Shape(rows, inner),
                other.basic().shape() == Shape(inner, columns),
                extent == Shape(rows, columns),
                rows <= T::limit(),
                columns <= T::limit(),
                inner <= T::limit(),
                value == (|p: Position|
                    product_sum(self.basic(), other.basic(), p, self.basic().shape().1 as nat)),
                full == kept(extent, basic_matrix_type, self.tolerance(), value),
                row <= rows,
                basic_matrix.rows_number() == shape.0,
                basic_matrix.columns_number() == shape.1,
                basic_matrix.kind() == basic_matrix_type,
                basic_matrix.elements() == full.restrict(scanned(extent, row, 0)),
            decreases rows - row,
        {
            let mut column: usize = 0;
            while column < columns
                invariant
                    obeys_arithmetic::<V>(),
                    self.basic().in_range(),
                    other.basic().in_range(),
                    self.basic().shape() == Shape(rows, inner),
                    other.basic().shape() == Shape(inner, columns),
                    extent == Shape(rows, columns),
                    rows <= T::limit(),
                    columns <= T::limit(),
                    inner <= T::limit(),
                    value == (|p: Position|
                        product_sum(
                            self.basic(),
                            other.basic(),
                            p,
                            self.basic().shape().1 as nat,
                        )),
                    full == kept(extent, basic_matrix_type, self.tolerance(), value),
                    row < rows,
                    column <= columns,
                    basic_matrix.rows_number() == shape.0,
                    basic_matrix.columns_number() == shape.1,
                    basic_matrix.kind() == basic_matrix_type,
                    basic_matrix.elements() == full.restrict(scanned(extent, row, column)),
                decreases columns - column,
            {
                let mut element_value: V = zero_value();
                let mut k: usize = 0;
                while k < inner
                    invariant
                        obeys_arithmetic::<V>(),
                        self.basic().in_range(),
                        other.basic().in_range(),
                        self.basic().shape() == Shape(rows, inner),
                        other.basic().shape() == Shape(inner, columns),
                        rows <= T::limit(),
                        columns <= T::limit(),
                        inner <= T::limit(),
                        row < rows,
                        column < columns,
                        k <= inner,
                        element_value == product_sum(
                            self.basic(),
                            other.basic(),
                            Position(row, column),
                            k as nat,
                        ),
                    decreases inner - k,
                {
                    let lhs_position = MatrixElementPosition::create(
                        T::from_usize(row),
                        T::from_usize(k),
                    );
                    let rhs_position = MatrixElementPosition::create(
                        T::from_usize(k),
                        T::from_usize(column),
                    );
                    let lhs: V = match self.basic_matrix.copy_element_value_or_zero(lhs_position) {
                        Ok(v) => v,
                        Err(_) => zero_value(),
                    };
                    let rhs: V = match other.basic_matrix.copy_element_value_or_zero(
                        rhs_position,
                    ) {
                        Ok(v) => v,
                        Err(_) => zero_value(),
                    };
                    element_value = element_value + lhs * rhs;
                    k += 1;
                }
                let position = MatrixElementPosition::create(
                    T::from_usize(row),
                    T::from_usize(column),
                );
                assert(element_value == value(Position(row, column)));
                basic_matrix.insert_matrix_element(position, element_value, self.tolerance);
                column += 1;
                assert(basic_matrix.elements() =~= full.restrict(scanned(extent, row, column)));
            }
            row += 1;
            assert(basic_matrix.elements() =~= full.restrict(scanned(extent, row, 0)));
        }
        assert(basic_matrix.elements() =~= full);
        Ok(ExtendedMatrix { tolerance: self.tolerance, basic_matrix })
    }

    /// Exchanges rows and columns; a symmetric matrix stays as it is.
    pub fn transpose(&mut self)
        ensures
            final(self).tolerance() == old(self).tolerance(),
            final(self).basic().kind() == old(self).basic().kind(),
            old(self).basic().kind() == BasicMatrixType::Symmetric
                ==> final(self).basic().rows_number() == old(self).basic().rows_number()
                && final(self).basic().columns_number() == old(self).basic().columns_number()
                && final(self).basic().elements() == old(self).basic().elements(),
            old(self).basic().kind() == BasicMatrixType::NonSymmetric
                ==> final(self).basic().rows_number() == old(self).basic().columns_number()
                && final(self).basic().columns_number() == old(self).basic().rows_number()
                && final(self).basic().elements() == rearranged(
                old(self).basic().elements(),
                Rearrangement::Transposed,
            ),
    {
        self.basic_matrix.transpose();
    }

    /// Stores `element_value` at the position where its magnitude is above
    /// the tolerance.
    pub fn insert_matrix_element(
        &mut self,
        matrix_element_position: MatrixElementPosition<T>,
        element_value: V,
        tolerance: V,
    )
        requires
            obeys_arithmetic::<V>(),
            matrix_element_position.row().number() <= usize::MAX,
            matrix_element_position.column().number() <= usize::MAX,
        ensures
            final(self).tolerance() == old(self).tolerance(),
            final(self).basic().rows_number() == old(self).basic().rows_number(),
            final(self).basic().columns_number() == old(self).basic().columns_number(),
            final(self).basic().kind() == old(self).basic().kind(),
            final(self).basic().elements() == crate::basic_matrix::inserted(
                old(self).basic().kind(),
                old(self).basic().elements(),
                place_of(matrix_element_position),
                element_value,
                tolerance,
            ),
    {
        self.basic_matrix.insert_matrix_element(matrix_element_position, element_value, tolerance);
    }

    /// The determinant of a matrix of two rows and two columns. Fails for
    /// any other shape.
    pub fn determinant_2x2(&self) -> (r: Result<V, String>)
        requires
            obeys_arithmetic::<V>(),
            self.basic().in_range(),
        ensures
            r.is_ok() == (self.basic().shape() == Shape(2usize, 2usize)),
            r matches Err(e) ==> e@ == determinant_2x2_text(
                self.basic().rows_number().number(),
                self.basic().columns_number().number(),
            ),
            r matches Ok(d) ==> d == self.basic().reading(Position(0, 0)).mul_spec(
                self.basic().reading(Position(1, 1)),
            ).sub_spec(
                self.basic().reading(Position(0, 1)).mul_spec(
                    self.basic().reading(Position(1, 0)),
                ),
            ),
    {
        let shape = self.copy_shape();
        let rows: usize = shape.0.into_usize();
        let columns: usize = shape.1.into_usize();
        if rows != columns || rows != 2 {
            let mut message: String = String::from_str(
                "Extended matrix: Could not find determinant of matrix! Rows number: ",
            );
            message.append(decimal_string(rows).as_str());
            message.append(", columns number: ");
            message.append(decimal_string(columns).as_str());
            return Err(message);
        }
        proof {
            shape.0.lemma_number_bound();
        }
        let a = self.value_at(0, 0);
        let b = self.value_at(0, 1);
        let c = self.value_at(1, 0);
        let d = self.value_at(1, 1);
        Ok(a * d - b * c)
    }

    /// What the given place inside the matrix reads as.
    pub fn value_at(&self, row: usize, column: usize) -> (r: V)
        requires
            obeys_arithmetic::<V>(),
            self.basic().in_range(),
            self.basic().shape().holds(Position(row, column)),
        ensures
            r == self.basic().reading(Position(row, column)),
    {
        proof {
            self.basic().rows_number().lemma_number_bound();
            self.basic().columns_number().lemma_number_bound();
        }
        let position = MatrixElementPosition::create(T::from_usize(row), T::from_usize(column));
        match self.basic_matrix.copy_element_value_or_zero(position) {
            Ok(v) => v,
            Err(_) => zero_value(),
        }
    }

    /// For each pair of positions adds the value that the submatrix stores
    /// at the second position, if any, to the value at the first. Where
    /// the two matrices are of different kinds, both become general ones
    /// first.
    pub fn add_submatrix_to_assemblage(
        &mut self,
        submatrix: &mut Self,
        assemblage_positions: &[MatrixElementPosition<T>],
        submatrix_positions: &[MatrixElementPosition<T>],
    )
        requires
            obeys_arithmetic::<V>(),
            old(self).basic().in_range(),
            old(submatrix).basic().in_range(),
            forall|i: int|
                0 <= i < assemblage_positions@.len() ==> (#[trigger] assemblage_positions@[i]).row().number()
                    <= usize::MAX && assemblage_positions@[i].column().number() <= usize::MAX,
            forall|i: int|
                0 <= i < submatrix_positions@.len() ==> (#[trigger] submatrix_positions@[i]).row().number()
                    <= usize::MAX && submatrix_positions@[i].column().number() <= usize::MAX,
        ensures
            final(self).tolerance() == old(self).tolerance(),
            final(submatrix).tolerance() == old(submatrix).tolerance(),
            old(self).basic().kind() == old(submatrix).basic().kind()
                ==> final(submatrix).basic().content() == old(submatrix).basic().content(),
            old(self).basic().kind() != old(submatrix).basic().kind()
                ==> final(submatrix).basic().content()
                == unfolded(old(submatrix).basic().content()),
            final(self).basic().rows_number() == old(self).basic().rows_number(),
            final(self).basic().columns_number() == old(self).basic().columns_number(),
            final(self).basic().kind() == final(submatrix).basic().kind(),
            final(self).basic().elements() == assembled(
                final(self).basic().kind(),
                if old(self).basic().kind() == old(submatrix).basic().kind() {
                    old(self).basic().elements()
                } else {
                    unfolded(old(self).basic().content()).elements
                },
                final(submatrix).basic().elements(),
                places(assemblage_positions@),
                places(submatrix_positions@),
                smaller(assemblage_positions@.len(), submatrix_positions@.len()),
            ),
    {
        let same: bool = match (self.ref_matrix_type(), submatrix.ref_matrix_type()) {
            (BasicMatrixType::Symmetric, BasicMatrixType::Symmetric) => true,
            (BasicMatrixType::NonSymmetric, BasicMatrixType::NonSymmetric) => true,
            _ => false,
        };
        if !same {
            self.into_nonsymmetric();
            submatrix.into_nonsymmetric();
        }
        let ghost start = self.basic().elements();
        let pairs: usize = if assemblage_positions.len() <= submatrix_positions.len() {
            assemblage_positions.len()
        } else {
            submatrix_positions.len()
        };
        let mut i: usize = 0;
        while i < pairs
            invariant
                obeys_arithmetic::<V>(),
                i <= pairs,
                pairs <= assemblage_positions@.len(),
                pairs <= submatrix_positions@.len(),
                forall|i: int|
                    0 <= i < assemblage_positions@.len()
                        ==> (#[trigger] assemblage_positions@[i]).row().number()
                        <= usize::MAX && assemblage_positions@[i].column().number()
                        <= usize::MAX,
                forall|i: int|
                    0 <= i < submatrix_positions@.len()
                        ==> (#[trigger] submatrix_positions@[i]).row().number()
                        <= usize::MAX && submatrix_positions@[i].column().number() <= usize::MAX,
                self.tolerance() == old(self).tolerance(),
                self.basic().rows_number() == old(self).basic().rows_number(),
                self.basic().columns_number() == old(self).basic().columns_number(),
                self.basic().kind() == submatrix.basic().kind(),
                self.basic().elements() == assembled(
                    self.basic().kind(),
                    start,
                    submatrix.basic().elements(),
                    places(assemblage_positions@),
                    places(submatrix_positions@),
                    i as nat,
                ),
            decreases pairs - i,
        {
            let lhs_position = assemblage_positions[i];
            let rhs_position = submatrix_positions[i];
            let source = rhs_position.position();
            let found: Option<V> = match submatrix.basic_matrix.ref_elements_values().get(&source) {
                Some(v) => Some(*v),
                None => None,
            };
            if let Some(rhs_element_value) = found {
                self.basic_matrix.add_sub_mul_assign_matrix_element_value(
                    lhs_position,
                    rhs_element_value,
                    Operation::Addition,
                );
            }
            i += 1;
        }
    }

    /// Turns a general matrix into a symmetric one where its stored values
    /// allow it within the tolerance.
    pub fn try_to_symmetrize(&mut self, tolerance: V)
        requires
            obeys_arithmetic::<V>(),
        ensures
            final(self).tolerance() == old(self).tolerance(),
            final(self).basic().rows_number() == old(self).basic().rows_number(),
            final(self).basic().columns_number() == old(self).basic().columns_number(),
            old(self).basic().kind() == BasicMatrixType::NonSymmetric && symmetrizable(
                old(self).basic().elements(),
                tolerance,
            ) ==> final(self).basic().kind() == BasicMatrixType::Symmetric
                && final(self).basic().elements() == rearranged(
                old(self).basic().elements(),
                Rearrangement::Upper,
            ),
            !(old(self).basic().kind() == BasicMatrixType::NonSymmetric && symmetrizable(
                old(self).basic().elements(),
                tolerance,
            )) ==> final(self).basic().kind() == old(self).basic().kind()
                && final(self).basic().elements() == old(self).basic().elements(),
    {
        self.basic_matrix.try_to_symmetrize(tolerance);
    }

    /// Turns a symmetric matrix into a general one.
    pub fn into_nonsymmetric(&mut self)
        ensures
            final(self).tolerance() == old(self).tolerance(),
            final(self).basic().rows_number() == old(self).basic().rows_number(),
            final(self).basic().columns_number() == old(self).basic().columns_number(),
            final(self).basic().content() == unfolded(old(self).basic().content()),
    {
        self.basic_matrix.into_nonsymmetric();
    }

    /// Takes empty rows and empty columns out of the matrix in pairs and
    /// returns the pairs.
    pub fn remove_zeros_rows_columns(&mut self) -> (r: Vec<MatrixElementPosition<T>>)
        requires
            old(self).basic().in_range(),
        ensures
            final(self).tolerance() == old(self).tolerance(),
            final(self).basic().in_range(),
            ({
                let before = old(self).basic();
                let rows = empty_rows(before.shape(), before.elements(), before.shape().0 as nat);
                let columns = empty_columns(
                    before.shape(),
                    before.elements(),
                    before.shape().1 as nat,
                );
                let pairs = smaller(rows.len(), columns.len());
                &&& r.len() == pairs
                &&& forall|i: int|
                    0 <= i < pairs ==> place_of(#[trigger] r@[i]) == Position(rows[i], columns[i])
                &&& final(self).basic().content() == stripped(
                    before.content(),
                    rows,
                    columns,
                    pairs,
                )
            }),
    {
        self.basic_matrix.remove_zeros_rows_columns()
    }

    /// Takes the given row out of the matrix, which becomes a general one.
    pub fn remove_selected_row(&mut self, row: T)
        requires
            old(self).basic().in_range(),
            old(self).basic().rows_number().number() >= 1,
            row.number() <= usize::MAX,
        ensures
            final(self).tolerance() == old(self).tolerance(),
            final(self).basic().in_range(),
            final(self).basic().content() == without_row(
                old(self).basic().content(),
                row.number() as usize,
            ),
    {
        self.basic_matrix.remove_selected_row(row);
    }

    /// Takes the given column out of the matrix, which becomes a general
    /// one.
    pub fn remove_selected_column(&mut self, column: T)
        requires
            old(self).basic().in_range(),
            old(self).basic().columns_number().number() >= 1,
            column.number() <= usize::MAX,
        ensures
            final(self).tolerance() == old(self).tolerance(),
            final(self).basic().in_range(),
            final(self).basic().content() == without_column(
                old(self).basic().content(),
                column.number() as usize,
            ),
    {
        self.basic_matrix.remove_selected_column(column);
    }

    pub fn copy_shape(&self) -> (r: Shape<T>)
        ensures
            r == Shape(self.basic().rows_number(), self.basic().columns_number()),
    {
        self.basic_matrix.copy_shape()
    }

    pub fn ref_matrix_type(&self) -> (r: &BasicMatrixType)
        ensures
            *r == self.basic().kind(),
    {
        self.basic_matrix.ref_matrix_type()
    }

    /// What the position reads as. Fails for a position outside the
    /// matrix.
    pub fn copy_element_value_or_zero(&self, matrix_element_position: MatrixElementPosition<T>) -> (r:
        Result<V, String>)
        requires
            obeys_arithmetic::<V>(),
            self.basic().in_range(),
            matrix_element_position.row().number() <= usize::MAX,
            matrix_element_position.column().number() <= usize::MAX,
        ensures
            r.is_ok() == self.basic().shape().holds(place_of(matrix_element_position)),
            r matches Ok(v) ==> v == self.basic().reading(place_of(matrix_element_position)),
            r matches Err(e) ==> e@ == out_of_size_text(),
    {
        self.basic_matrix.copy_element_value_or_zero(matrix_element_position)
    }

    pub fn ref_elements_values(&self) -> (r: &Elements<V>)
        ensures
            r@ == self.basic().elements(),
    {
        self.basic_matrix.ref_elements_values()
    }
    /// The general matrix that stores at every position what this matrix
    /// reads as there.
    pub fn to_matrix(&self) -> (m: crate::matrix::Matrix<V>)
        requires
            obeys_arithmetic::<V>(),
            self.basic().in_range(),
        ensures
            crate::basic_operations_trait::BasicOperationsTrait::shape(&m) == self.basic().shape(),
            crate::basic_operations_trait::BasicOperationsTrait::elements(&m) == reading_map(
                self.basic(),
            ),
    {
        let shape = Shape(
            self.basic_matrix.copy_shape().0.into_usize(),
            self.basic_matrix.copy_shape().1.into_usize(),
        );
        let ghost full = reading_map(self.basic());
        let mut elements: Elements<V> = Elements::new();
        let mut row: usize = 0;
        while row < shape.0
            invariant
                obeys_arithmetic::<V>(),
                self.basic().in_range(),
                shape == self.basic().shape(),
                full == reading_map(self.basic()),
                row <= shape.0,
                elements@ == full.restrict(scanned(shape, row, 0)),
            decreases shape.0 - row,
        {
            let mut column: usize = 0;
            while column < shape.1
                invariant
                    obeys_arithmetic::<V>(),
                    self.basic().in_range(),
                    shape == self.basic().shape(),
                    full == reading_map(self.basic()),
                    row < shape.0,
                    column <= shape.1,
                    elements@ == full.restrict(scanned(shape, row, column)),
                decreases shape.1 - column,
            {
                let value: V = self.value_at(row, column);
                elements.insert(Position(row, column), value);
                column += 1;
                assert(elements@ =~= full.restrict(scanned(shape, row, column)));
            }
            row += 1;
            assert(elements@ =~= full.restrict(scanned(shape, row, 0)));
        }
        assert(elements@ =~= full);
        crate::matrix::Matrix { shape, elements }
    }

    /// What the first `n` rows and columns read as, as a vector of rows.
    pub fn dense_readings(&self, n: usize) -> (a: Vec<Vec<V>>)
        requires
            obeys_arithmetic::<V>(),
            self.basic().in_range(),
            n <= self.basic().shape().0,
            n <= self.basic().shape().1,
        ensures
            grid(a@) == readings(self.basic(), n as nat),
            is_square(grid(a@), n as nat),
    {
        let mut a: Vec<Vec<V>> = Vec::new();
        let mut i: usize = 0;
        while i < n
            invariant
                obeys_arithmetic::<V>(),
                self.basic().in_range(),
                n <= self.basic().shape().0,
                n <= self.basic().shape().1,
                i <= n,
                a.len() == i,
                forall|r: int|
                    0 <= r < i ==> (#[trigger] a@[r])@ == readings(self.basic(), n as nat)[r],
            decreases n - i,
        {
            let mut row: Vec<V> = Vec::new();
            let mut j: usize = 0;
            while j < n
                invariant
                    obeys_arithmetic::<V>(),
                    self.basic().in_range(),
                    n <= self.basic().shape().0,
                    n <= self.basic().shape().1,
                    i < n,
                    j <= n,
                    row@ == readings(self.basic(), n as nat)[i as int].take(j as int),
                decreases n - j,
            {
                let value: V = self.value_at(i, j);
                row.push(value);
                j += 1;
                assert(row@ =~= readings(self.basic(), n as nat)[i as int].take(j as int));
            }
            assert(row@ =~= readings(self.basic(), n as nat)[i as int]);
            a.push(row);
            i += 1;
        }
        assert(grid(a@) =~= readings(self.basic(), n as nat));
        a
    }

    /// Gives each of the values of the first `n` rows and columns to the
    /// matrix for its position.
    pub fn store_values(&mut self, values: &Vec<Vec<V>>, n: usize, tolerance: V)
        requires
            obeys_arithmetic::<V>(),
            old(self).basic().in_range(),
            n <= old(self).basic().shape().0,
            n <= old(self).basic().shape().1,
            is_square(grid(values@), n as nat),
        ensures
            final(self).tolerance() == old(self).tolerance(),
            final(self).basic().rows_number() == old(self).basic().rows_number(),
            final(self).basic().columns_number() == old(self).basic().columns_number(),
            final(self).basic().kind() == old(self).basic().kind(),
            final(self).basic().elements() == stored(
                old(self).basic().kind(),
                old(self).basic().elements(),
                grid(values@),
                square(n),
                tolerance,
            ),
    {
        let ghost kind = self.basic().kind();
        let ghost before = self.basic().elements();
        let shape = Shape(n, n);
        proof {
            self.basic().rows_number().lemma_number_bound();
            self.basic().columns_number().lemma_number_bound();
            assert(self.basic().elements() =~= stored(
                kind,
                before,
                grid(values@),
                scanned(shape, 0, 0),
                tolerance,
            ));
        }
        let mut row: usize = 0;
        while row < n
            invariant
                obeys_arithmetic::<V>(),
                is_square(grid(values@), n as nat),
                shape == Shape(n, n),
                n <= T::limit(),
                row <= n,
                self.tolerance() == old(self).tolerance(),
                self.basic().rows_number() == old(self).basic().rows_number(),
                self.basic().columns_number() == old(self).basic().columns_number(),
                self.basic().kind() == kind,
                self.basic().elements() == stored(
                    kind,
                    before,
                    grid(values@),
                    scanned(shape, row, 0),
                    tolerance,
                ),
            decreases n - row,
        {
            let mut column: usize = 0;
            while column < n
                invariant
                    obeys_arithmetic::<V>(),
                    is_square(grid(values@), n as nat),
                    shape == Shape(n, n),
                    n <= T::limit(),
                    row < n,
                    column <= n,
                    self.tolerance() == old(self).tolerance(),
                    self.basic().rows_number() == old(self).basic().rows_number(),
                    self.basic().columns_number() == old(self).basic().columns_number(),
                    self.basic().kind() == kind,
                    self.basic().elements() == stored(
                        kind,
                        before,
                        grid(values@),
                        scanned(shape, row, column),
                        tolerance,
                    ),
                decreases n - column,
            {
                assert(grid(values@)[row as int].len() == n);
                let position = MatrixElementPosition::create(
                    T::from_usize(row),
                    T::from_usize(column),
                );
                self.basic_matrix.insert_matrix_element(position, values[row][column], tolerance);
                column += 1;
                assert(self.basic().elements() =~= stored(
                    kind,
                    before,
                    grid(values@),
                    scanned(shape, row, column),
                    tolerance,
                ));
            }
            row += 1;
            assert(self.basic().elements() =~= stored(
                kind,
                before,
                grid(values@),
                scanned(shape, row, 0),
                tolerance,
            ));
        }
        assert(self.basic().elements() =~= stored(
            kind,
            before,
            grid(values@),
            square(n),
            tolerance,
        ));
    }
    /// The matrix of the given size and kind that stores nothing.
    pub fn create_default(
        rows_number: T,
        columns_number: T,
        matrix_type: BasicMatrixType,
        tolerance: V,
    ) -> (r: Self)
        ensures
            r.tolerance() == tolerance,
            r.basic().rows_number() == rows_number,
            r.basic().columns_number() == columns_number,
            r.basic().kind() == matrix_type,
            r.basic().elements() == Map::<Position, V>::empty(),
    {
        ExtendedMatrix {
            tolerance,
            basic_matrix: BasicMatrix::create_default(rows_number, columns_number, matrix_type),
        }
    }

    /// The tolerance below which the matrix takes a value for zero.
    pub fn copy_tolerance(&self) -> (r: V)
        ensures
            r == self.tolerance(),
    {
        self.tolerance
    }

    /// The matrix inside.
    pub fn basic_mut(&mut self) -> (r: &mut BasicMatrix<T, V>)
        ensures
            *r == old(self).basic(),
            final(self).basic() == *final(r),
            final(self).tolerance() == old(self).tolerance(),
    {
        &mut self.basic_matrix
    }

    /// A copy of the matrix.
    pub fn duplicate(&self) -> (r: Self)
        ensures
            r.tolerance() == self.tolerance(),
            r.basic().rows_number() == self.basic().rows_number(),
            r.basic().columns_number() == self.basic().columns_number(),
            r.basic().kind() == self.basic().kind(),
            r.basic().elements() == self.basic().elements(),
    {
        ExtendedMatrix { tolerance: self.tolerance, basic_matrix: self.basic_matrix.duplicate() }
    }

    /// The LU decomposition with scaled partial pivoting of a square
    /// matrix of at least two rows, as one matrix that holds both factors.
    /// A symmetric matrix is unfolded first, and a new value whose
    /// magnitude is not above the tolerance of the matrix is not written.
    pub fn lu_decomposition(&self) -> (r: Result<Self, Failure<V>>)
        requires
            obeys_arithmetic::<V>(),
            self.basic().in_range(),
        ensures
            !(self.basic().shape().0 == self.basic().shape().1 && self.basic().shape().0 >= 2)
                ==> (r matches Err(Failure::Message(text)) && text@ == decompose_text(
                self.basic().rows_number().number(),
                self.basic().columns_number().number(),
            )),
            self.basic().shape().0 == self.basic().shape().1 && self.basic().shape().0 >= 2
                ==> match decomposed_elements(self.basic().content(), self.tolerance()) {
                None => r matches Err(Failure::SmallPivot(small)) && Some(small) == lup_fault(
                    dense(
                        unfolded(self.basic().content()).elements,
                        self.basic().shape().0 as nat,
                    ),
                    self.tolerance(),
                    Some(self.tolerance()),
                ),
                Some(elements) => r matches Ok(m) && m.tolerance() == self.tolerance()
                    && m.basic().rows_number() == self.basic().rows_number()
                    && m.basic().columns_number() == self.basic().columns_number()
                    && m.basic().kind() == BasicMatrixType::NonSymmetric && m.basic().elements()
                    == elements,
            },
    {
        let shape = self.copy_shape();
        let n: usize = shape.0.into_usize();
        if n != shape.1.into_usize() || n < 2 {
            let mut message: String = String::from_str(
                "Extended matrix: Could not decompose matrix! Rows number ",
            );
            message.append(decimal_string(n).as_str());
            message.append(" does not match to columns number ");
            message.append(decimal_string(shape.1.into_usize()).as_str());
            return Err(Failure::Message(message));
        }
        let mut decomposed_matrix = self.duplicate();
        decomposed_matrix.into_nonsymmetric();
        assert(readings(decomposed_matrix.basic(), n as nat) =~= dense(
            decomposed_matrix.basic().elements(),
            n as nat,
        )) by {
            assert forall|i: int| 0 <= i < n implies readings(decomposed_matrix.basic(), n as nat)[i]
                =~= dense(decomposed_matrix.basic().elements(), n as nat)[i] by {}
        }
        let mut o: Vec<usize> = vec![0usize; n];
        let mut s: Vec<V> = zeros(n);
        let ghost rows = readings(decomposed_matrix.basic(), n as nat);
        match crate::functions::decompose(&mut decomposed_matrix, n, self.tolerance, &mut o, &mut s) {
            Err(small) => Err(Failure::SmallPivot(small)),
            Ok(_) => {
                proof {
                    crate::lup::lemma_lup_left(rows, self.tolerance, Some(self.tolerance));
                }
                Ok(decomposed_matrix)
            },
        }
    }

    /// The product of the diagonal of the LU decomposition of a square
    /// matrix of at least two rows.
    pub fn determinant(&self) -> (r: Result<V, Failure<V>>)
        requires
            obeys_arithmetic::<V>(),
            self.basic().in_range(),
        ensures
            !(self.basic().shape().0 == self.basic().shape().1 && self.basic().shape().0 >= 2)
                ==> (r matches Err(Failure::Message(text)) && text@ == determinant_text(
                self.basic().rows_number().number(),
                self.basic().columns_number().number(),
            )),
            self.basic().shape().0 == self.basic().shape().1 && self.basic().shape().0 >= 2
                ==> match decomposed_elements(self.basic().content(), self.tolerance()) {
                None => r matches Err(Failure::SmallPivot(small)) && Some(small) == lup_fault(
                    dense(
                        unfolded(self.basic().content()).elements,
                        self.basic().shape().0 as nat,
                    ),
                    self.tolerance(),
                    Some(self.tolerance()),
                ),
                Some(elements) => r matches Ok(d) && d == diagonal_readings_product(
                    elements,
                    self.basic().shape().0 as nat,
                ),
            },
    {
        let shape = self.copy_shape();
        let n: usize = shape.0.into_usize();
        if n != shape.1.into_usize() || n < 2 {
            let mut message: String = String::from_str(
                "Extended matrix: Could not find determinant of matrix! Rows number ",
            );
            message.append(decimal_string(n).as_str());
            message.append(" does not match to columns number ");
            message.append(decimal_string(shape.1.into_usize()).as_str());
            return Err(Failure::Message(message));
        }
        let decomposed_matrix = match self.lu_decomposition() {
            Ok(m) => m,
            Err(e) => {
                return Err(e);
            },
        };
        let mut determinant: V = one_value();
        let mut i: usize = 0;
        while i < n
            invariant
                obeys_arithmetic::<V>(),
                decomposed_matrix.basic().in_range(),
                decomposed_matrix.basic().shape() == Shape(n, n),
                decomposed_matrix.basic().kind() == BasicMatrixType::NonSymmetric,
                i <= n,
                determinant == diagonal_readings_product(
                    decomposed_matrix.basic().elements(),
                    i as nat,
                ),
            decreases n - i,
        {
            let value: V = decomposed_matrix.value_at(i, i);
            determinant = determinant * value;
            i += 1;
        }
        Ok(determinant)
    }

    /// The inverse of a square matrix by LU decomposition with scaled
    /// partial pivoting, found column by column as the solution for a unit
    /// vector. A symmetric matrix is unfolded first, and a value whose
    /// magnitude is not above the tolerance of the matrix is not written.
    /// Fails with a message for a matrix with more columns than rows and
    /// for one with fewer, and with the ratio of a pivot to the scale of its
    /// row where that ratio is below the tolerance.
    pub fn inverse(&self) -> (r: Result<Self, Failure<V>>)
        requires
            obeys_arithmetic::<V>(),
            self.basic().in_range(),
            self.basic().shape().0 >= 1,
            self.basic().shape().0 * self.basic().shape().0 <= usize::MAX,
        ensures
            self.basic().shape().1 > self.basic().shape().0 ==> (
            r matches Err(Failure::Message(text)) && text@ == incorrect_number_text()),
            self.basic().shape().1 < self.basic().shape().0 ==> (
            r matches Err(Failure::Message(text)) && text@ == inverse_out_of_size_text()),
            self.basic().shape().1 == self.basic().shape().0 ==> match lup_decomposed(
                dense(unfolded(self.basic().content()).elements, self.basic().shape().0 as nat),
                self.tolerance(),
                Some(self.tolerance()),
            ) {
                None => r matches Err(Failure::SmallPivot(small)) && Some(small) == lup_fault(
                    dense(
                        unfolded(self.basic().content()).elements,
                        self.basic().shape().0 as nat,
                    ),
                    self.tolerance(),
                    Some(self.tolerance()),
                ),
                Some(state) => r matches Ok(m) && m.tolerance() == self.tolerance()
                    && m.basic().rows_number() == self.basic().rows_number()
                    && m.basic().columns_number() == self.basic().columns_number()
                    && m.basic().kind() == BasicMatrixType::NonSymmetric && m.basic().elements()
                    == stored(
                    BasicMatrixType::NonSymmetric,
                    zero_base(self.basic().shape(), self.tolerance()),
                    inverse_values(state),
                    square(self.basic().shape().0),
                    self.tolerance(),
                ),
            },
    {
        let shape = self.copy_shape();
        let n: usize = shape.0.into_usize();
        if shape.1.into_usize() > n {
            return Err(
                Failure::Message(String::from_str("Basic matrix: Incorrect number of elements!")),
            );
        }
        if shape.1.into_usize() < n {
            return Err(
                Failure::Message(
                    String::from_str(
                        "Extended matrix: Inverse matrix calculation: Ill conditioned system: \"Basic matrix: Inputted indexes are out of matrix size!\"",
                    ),
                ),
            );
        }
        let mut a = self.duplicate();
        a.into_nonsymmetric();
        assert(readings(a.basic(), n as nat) =~= dense(a.basic().elements(), n as nat)) by {
            assert forall|i: int| 0 <= i < n implies readings(a.basic(), n as nat)[i] =~= dense(
                a.basic().elements(),
                n as nat,
            )[i] by {}
        }
        let mut o: Vec<usize> = vec![0usize; n];
        let mut s: Vec<V> = zeros(n);
        let listing: Vec<V> = zeros(n * n);
        let mut inverted = match ExtendedMatrix::create(shape.0, shape.1, listing, self.tolerance) {
            Ok(m) => m,
            Err(e) => {
                return Err(Failure::Message(e));
            },
        };
        inverted.into_nonsymmetric();
        let mut factors = a.dense_readings(n);
        if let Err(small) = crate::lup::decompose_lup(
            &mut factors,
            n,
            self.tolerance,
            &mut o,
            &mut s,
            Some(self.tolerance),
        ) {
            return Err(Failure::SmallPivot(small));
        }
        let ghost state = crate::lup::lup_of(factors@, o@, s@);
        assert(state.rows.len() == n);
        let mut values: Vec<Vec<V>> = Vec::new();
        let mut i: usize = 0;
        while i < n
            invariant
                obeys_arithmetic::<V>(),
                i <= n,
                values.len() == i,
                forall|r: int| 0 <= r < i ==> (#[trigger] values@[r]).len() == n,
            decreases n - i,
        {
            values.push(zeros(n));
            i += 1;
        }
        let mut column: usize = 0;
        while column < n
            invariant
                obeys_arithmetic::<V>(),
                is_square(grid(factors@), n as nat),
                is_order(o@, n as nat),
                state == crate::lup::lup_of(factors@, o@, s@),
                state.rows.len() == n,
                n >= 1,
                column <= n,
                values.len() == n,
                forall|r: int| 0 <= r < n ==> (#[trigger] values@[r]).len() == n,
                forall|r: int, c: int|
                    0 <= r < n && 0 <= c < column ==> #[trigger] values@[r]@[c] == inverse_value(
                        state,
                        Position(r as usize, c as usize),
                    ),
            decreases n - column,
        {
            let mut b: Vec<V> = Vec::new();
            let mut j: usize = 0;
            while j < n
                invariant
                    obeys_arithmetic::<V>(),
                    j <= n,
                    column < n,
                    b@ == unit::<V>(n as nat, column as int).take(j as int),
                decreases n - j,
            {
                if column == j {
                    b.push(one_value());
                } else {
                    b.push(zero_value());
                }
                j += 1;
                assert(b@ =~= unit::<V>(n as nat, column as int).take(j as int));
            }
            assert(b@ =~= unit::<V>(n as nat, column as int));
            let mut x: Vec<V> = zeros(n);
            crate::lup::substitute_lup(&factors, &o, n, &mut b, &mut x);
            assert(x@ == lup_solved(state, unit::<V>(n as nat, column as int)));
            let mut j: usize = 0;
            while j < n
                invariant
                    obeys_arithmetic::<V>(),
                    j <= n,
                    column < n,
                    state.rows.len() == n,
                    x.len() == n,
                    x@ == lup_solved(state, unit::<V>(n as nat, column as int)),
                    values.len() == n,
                    forall|r: int| 0 <= r < n ==> (#[trigger] values@[r]).len() == n,
                    forall|r: int, c: int|
                        0 <= r < n && 0 <= c < column ==> #[trigger] values@[r]@[c]
                            == inverse_value(state, Position(r as usize, c as usize)),
                    forall|r: int|
                        0 <= r < j ==> (#[trigger] values@[r])@[column as int] == inverse_value(
                            state,
                            Position(r as usize, column),
                        ),
                decreases n - j,
            {
                let ghost before = values@;
                assert(values@[j as int].len() == n);
                values[j][column] = x[j];
                assert forall|r: int| 0 <= r < n implies (#[trigger] values@[r]).len() == n by {
                    assert(before[r].len() == n);
                }
                assert forall|r: int, c: int|
                    0 <= r < n && 0 <= c < column implies #[trigger] values@[r]@[c]
                    == inverse_value(state, Position(r as usize, c as usize)) by {
                    assert(before[r]@[c] == inverse_value(state, Position(r as usize, c as usize)));
                }
                assert forall|r: int| 0 <= r < j + 1 implies (#[trigger] values@[r])@[column as int]
                    == inverse_value(state, Position(r as usize, column)) by {
                    if r < j {
                        assert(before[r]@[column as int] == inverse_value(
                            state,
                            Position(r as usize, column),
                        ));
                    }
                }
                j += 1;
            }
            column += 1;
        }
        assert(grid(values@) =~= inverse_values(state)) by {
            assert forall|r: int| 0 <= r < n implies grid(values@)[r] =~= inverse_values(state)[r] by {
                assert(values@[r].len() == n);
            }
        }
        inverted.store_values(&values, n, self.tolerance);
        Ok(inverted)
    }
}

} // verus!
