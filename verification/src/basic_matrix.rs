pub mod non_symmetric_matrix;
pub mod symmetric_matrix;

use vstd::prelude::*;
use vstd::std_specs::cmp::{PartialEqSpec, PartialEqSpecImpl};
use vstd::std_specs::ops::{AddSpec, MulSpec, NegSpec, SubSpec};
use core::ops::Neg;
use crate::basic_operations_trait::{scale, scaled, scanned, value_or_zero};
use crate::elements::{lists, Elements};
use crate::flat::{flat_index, lemma_flat_bound};
use crate::float_trait::{
    is_less, is_significant, less, magnitude, magnitude_of, obeys_arithmetic, one, one_value,
    significant, zero_value, FloatTrait,
};
use crate::matrix_element_position::MatrixElementPosition;
use crate::operation::Operation;
use crate::position::Position;
use crate::rearrangement::{rearrange, rearranged, Rearrangement};
use crate::shape::Shape;
use crate::uint_trait::UIntTrait;

verus! {

/// How a matrix keeps its values: a symmetric one keeps those on and above
/// the diagonal only.
#[derive(Debug, Copy, Clone, PartialEq, Eq, Structural)]
pub enum BasicMatrixType {
    Symmetric,
    NonSymmetric,
}

/// A sparse matrix whose rows and columns are numbered by `T`. It stores
/// what was given to it with a magnitude above a tolerance; everything else
/// reads as zero.
#[derive(Clone, Debug)]
pub struct BasicMatrix<T, V> {
    rows_number: T,
    columns_number: T,
    matrix_type: BasicMatrixType,
    elements_values: Elements<V>,
}

/// "Basic matrix: Incorrect number of elements!"
pub open spec fn incorrect_number_text() -> Seq<char> {
    "Basic matrix: Incorrect number of elements!"@
}

/// "Basic matrix: Inputted indexes are out of matrix size!"
pub open spec fn out_of_size_text() -> Seq<char> {
    "Basic matrix: Inputted indexes are out of matrix size!"@
}

/// The place of the given row and column.
pub open spec fn place_of<T: UIntTrait>(position: MatrixElementPosition<T>) -> Position {
    Position(position.row().number() as usize, position.column().number() as usize)
}

/// What a matrix of the given kind keeps of `value` at `position`, given
/// with a tolerance: nothing of a value whose magnitude is not above the
/// tolerance, and nothing below the diagonal of a symmetric matrix.
pub open spec fn inserted<V: FloatTrait>(
    kind: BasicMatrixType,
    elements: Map<Position, V>,
    position: Position,
    value: V,
    tolerance: V,
) -> Map<Position, V> {
    if significant(value, tolerance) && (kind == BasicMatrixType::NonSymmetric || position.0
        <= position.1) {
        elements.insert(position, value)
    } else {
        elements
    }
}

/// What the operation leaves at `position`: a stored value is added to,
/// subtracted from or multiplied; a missing one becomes the operand for an
/// addition, minus the operand for a subtraction, and stays missing for a
/// multiplication. Nothing changes below the diagonal of a symmetric
/// matrix.
pub open spec fn assigned<V: FloatTrait>(
    kind: BasicMatrixType,
    elements: Map<Position, V>,
    position: Position,
    value: V,
    operation: Operation,
) -> Map<Position, V> {
    if kind == BasicMatrixType::Symmetric && position.0 > position.1 {
        elements
    } else if elements.contains_key(position) {
        match operation {
            Operation::Addition => elements.insert(position, elements[position].add_spec(value)),
            Operation::Subtraction => elements.insert(
                position,
                elements[position].sub_spec(value),
            ),
            Operation::Multiplication => elements.insert(
                position,
                elements[position].mul_spec(value),
            ),
        }
    } else {
        match operation {
            Operation::Addition => elements.insert(position, value),
            Operation::Subtraction => elements.insert(
                position,
                value.mul_spec(one::<V>().neg_spec()),
            ),
            Operation::Multiplication => elements,
        }
    }
}

/// What a row-by-row listing gives for a position of the shape.
pub open spec fn listed_at<V>(shape: Shape, values: Seq<V>, position: Position) -> V {
    values[flat_index(shape.1 as int, position)]
}

/// The listed value below the diagonal agrees with the one above it: it
/// equals a significant one, and is itself not significant beside one that
/// is not.
pub open spec fn agrees<V: FloatTrait>(
    shape: Shape,
    values: Seq<V>,
    tolerance: V,
    position: Position,
) -> bool {
    let lower = listed_at(shape, values, position);
    let upper = listed_at(shape, values, position.swapped());
    if significant(upper, tolerance) {
        upper.eq_spec(&lower)
    } else {
        !significant(lower, tolerance)
    }
}

/// The listing describes a symmetric matrix: the shape is square, and
/// every listed value below the diagonal agrees with the one above it.
pub open spec fn symmetric_listing<V: FloatTrait>(shape: Shape, values: Seq<V>, tolerance: V) -> bool {
    &&& shape.0 == shape.1
    &&& forall|p: Position| #[trigger]
        shape.holds(p) && p.0 > p.1 ==> agrees(shape, values, tolerance, p)
}

/// The significant values of a listing by position; of a symmetric one
/// those on and above the diagonal only.
pub open spec fn significant_part<V: FloatTrait>(
    shape: Shape,
    values: Seq<V>,
    tolerance: V,
    kind: BasicMatrixType,
) -> Map<Position, V> {
    Map::new(
        |p: Position|
            shape.holds(p) && significant(listed_at(shape, values, p), tolerance) && (kind
                == BasicMatrixType::NonSymmetric || p.0 <= p.1),
        |p: Position| listed_at(shape, values, p),
    )
}

/// The kind of matrix that a listing describes.
pub open spec fn listing_kind<V: FloatTrait>(
    shape: Shape,
    values: Seq<V>,
    tolerance: V,
) -> BasicMatrixType {
    if symmetric_listing(shape, values, tolerance) {
        BasicMatrixType::Symmetric
    } else {
        BasicMatrixType::NonSymmetric
    }
}

/// Every value stored off the diagonal has a stored mirror image that
/// differs from it by less than the tolerance.
pub open spec fn symmetrizable<V: FloatTrait>(elements: Map<Position, V>, tolerance: V) -> bool {
    forall|p: Position| #[trigger]
        elements.contains_key(p) && p.0 != p.1 ==> close_to_mirror(elements, tolerance, p)
}

/// The mirror image of `position` is stored and differs from the value at
/// `position` by less than the tolerance.
pub open spec fn close_to_mirror<V: FloatTrait>(
    elements: Map<Position, V>,
    tolerance: V,
    position: Position,
) -> bool {
    &&& elements.contains_key(position.swapped())
    &&& less(
        magnitude(elements[position].sub_spec(elements[position.swapped()])),
        tolerance,
    )
}

/// What a matrix holds: its shape, its kind and its stored values.
pub struct Content<V> {
    pub shape: Shape,
    pub kind: BasicMatrixType,
    pub elements: Map<Position, V>,
}

/// The content as that of a general matrix: a symmetric one is unfolded.
pub open spec fn unfolded<V>(content: Content<V>) -> Content<V> {
    Content {
        shape: content.shape,
        kind: BasicMatrixType::NonSymmetric,
        elements: if content.kind == BasicMatrixType::Symmetric {
            rearranged(content.elements, Rearrangement::Unfolded)
        } else {
            content.elements
        },
    }
}

/// The content without the given row, as that of a general matrix: the
/// rows below it move up, wherever their values stand.
pub open spec fn without_row<V>(content: Content<V>, row: usize) -> Content<V> {
    let shape = Shape((content.shape.0 - 1) as usize, content.shape.1);
    Content {
        shape,
        kind: BasicMatrixType::NonSymmetric,
        elements: rearranged(
            unfolded(content).elements,
            Rearrangement::WithoutRowOf(row, content.shape.1),
        ),
    }
}

/// The content without the given column, as that of a general matrix:
/// the columns right of it move left, wherever their values stand.
pub open spec fn without_column<V>(content: Content<V>, column: usize) -> Content<V> {
    let shape = Shape(content.shape.0, (content.shape.1 - 1) as usize);
    Content {
        shape,
        kind: BasicMatrixType::NonSymmetric,
        elements: rearranged(
            unfolded(content).elements,
            Rearrangement::WithoutColumnOf(column, content.shape.0),
        ),
    }
}

/// Nothing is stored in the given row left of column `upto`.
pub open spec fn empty_row_upto<V>(elements: Map<Position, V>, row: usize, upto: usize) -> bool {
    forall|column: usize| column < upto ==> !#[trigger] elements.contains_key(Position(row, column))
}

/// Nothing is stored in the given column above row `upto`.
pub open spec fn empty_column_upto<V>(
    elements: Map<Position, V>,
    column: usize,
    upto: usize,
) -> bool {
    forall|row: usize| row < upto ==> !#[trigger] elements.contains_key(Position(row, column))
}

/// The empty rows among the last `taken` rows, the lowest first.
pub open spec fn empty_rows<V>(shape: Shape, elements: Map<Position, V>, taken: nat) -> Seq<usize>
    decreases taken,
{
    if taken == 0 || taken > shape.0 {
        Seq::empty()
    } else {
        let earlier = empty_rows(shape, elements, (taken - 1) as nat);
        let row = (shape.0 - taken) as usize;
        if empty_row_upto(elements, row, shape.1) {
            earlier.push(row)
        } else {
            earlier
        }
    }
}

/// The empty columns among the last `taken` columns, the rightmost first.
pub open spec fn empty_columns<V>(
    shape: Shape,
    elements: Map<Position, V>,
    taken: nat,
) -> Seq<usize>
    decreases taken,
{
    if taken == 0 || taken > shape.1 {
        Seq::empty()
    } else {
        let earlier = empty_columns(shape, elements, (taken - 1) as nat);
        let column = (shape.1 - taken) as usize;
        if empty_column_upto(elements, column, shape.0) {
            earlier.push(column)
        } else {
            earlier
        }
    }
}

/// The content after the first `pairs` of the given rows and columns were
/// taken out, pair by pair the row and then the column.
pub open spec fn stripped<V>(
    content: Content<V>,
    rows: Seq<usize>,
    columns: Seq<usize>,
    pairs: nat,
) -> Content<V>
    decreases pairs,
{
    if pairs == 0 {
        content
    } else {
        without_column(
            without_row(stripped(content, rows, columns, (pairs - 1) as nat), rows[pairs - 1]),
            columns[pairs - 1],
        )
    }
}

/// The smaller of two numbers.
pub open spec fn smaller(a: nat, b: nat) -> nat {
    if a <= b {
        a
    } else {
        b
    }
}

impl<T: UIntTrait, V: FloatTrait> BasicMatrix<T, V> {
    pub closed spec fn rows_number(&self) -> T {
        self.rows_number
    }

    pub closed spec fn columns_number(&self) -> T {
        self.columns_number
    }

    /// How the matrix keeps its values.
    pub closed spec fn kind(&self) -> BasicMatrixType {
        self.matrix_type
    }

    /// The stored values by position.
    pub closed spec fn elements(&self) -> Map<Position, V> {
        self.elements_values@
    }

    /// The numbers of rows and columns.
    pub open spec fn shape(&self) -> Shape {
        Shape(self.rows_number().number() as usize, self.columns_number().number() as usize)
    }

    /// What the matrix holds.
    pub open spec fn content(&self) -> Content<V> {
        Content { shape: self.shape(), kind: self.kind(), elements: self.elements() }
    }

    /// The numbers of rows and columns fit the machine's word.
    pub open spec fn in_range(&self) -> bool {
        self.rows_number().number() <= usize::MAX && self.columns_number().number() <= usize::MAX
    }

    /// What `position` reads as: for a symmetric matrix the value kept for
    /// the position on or above the diagonal.
    pub open spec fn reading(&self, position: Position) -> V {
        if self.kind() == BasicMatrixType::Symmetric && position.0 > position.1 {
            value_or_zero(self.elements(), position.swapped())
        } else {
            value_or_zero(self.elements(), position)
        }
    }

    /// A copy of the matrix.
    pub fn duplicate(&self) -> (r: Self)
        ensures
            r.rows_number() == self.rows_number(),
            r.columns_number() == self.columns_number(),
            r.kind() == self.kind(),
            r.elements() == self.elements(),
    {
        BasicMatrix {
            rows_number: self.rows_number,
            columns_number: self.columns_number,
            matrix_type: self.matrix_type,
            elements_values: self.elements_values.clone(),
        }
    }

    /// The matrix of the given size and kind that stores nothing.
    pub fn create_default(rows_number: T, columns_number: T, matrix_type: BasicMatrixType) -> (r:
        Self)
        ensures
            r.rows_number() == rows_number,
            r.columns_number() == columns_number,
            r.kind() == matrix_type,
            r.elements() == Map::<Position, V>::empty(),
    {
        BasicMatrix { rows_number, columns_number, matrix_type, elements_values: Elements::new() }
    }

    /// Whether `position` lies inside the matrix.
    fn matrix_size_check(&self, position: &MatrixElementPosition<T>) -> (r: Result<(), String>)
        requires
            self.in_range(),
            position.row().number() <= usize::MAX,
            position.column().number() <= usize::MAX,
        ensures
            r.is_ok() == self.shape().holds(place_of(*position)),
            r matches Err(e) ==> e@ == out_of_size_text(),
    {
        let row: usize = position.ref_row().into_usize();
        let column: usize = position.ref_column().into_usize();
        if row >= self.rows_number.into_usize() || column >= self.columns_number.into_usize() {
            return Err(
                String::from_str("Basic matrix: Inputted indexes are out of matrix size!"),
            );
        }
        Ok(())
    }

    /// Stores `element_value` at the position where its magnitude is above
    /// the tolerance; a symmetric matrix takes it on and above the diagonal
    /// only.
    pub fn insert_matrix_element(
        &mut self,
        matrix_element_position: MatrixElementPosition<T>,
        element_value: V,
        tolerance: V,
    )
        requires
            obeys_arithmetic::<V>(),
            matrix_element_position.row().number() <= usize::MAX,
            matrix_element_position.column().number() <= usize::MAX,
        ensures
            final(self).rows_number() == old(self).rows_number(),
            final(self).columns_number() == old(self).columns_number(),
            final(self).kind() == old(self).kind(),
            final(self).elements() == inserted(
                old(self).kind(),
                old(self).elements(),
                place_of(matrix_element_position),
                element_value,
                tolerance,
            ),
    {
        let position = matrix_element_position.position();
        if is_significant(element_value, tolerance) {
            match self.matrix_type {
                BasicMatrixType::Symmetric => {
                    if position.0 <= position.1 {
                        self.elements_values.insert(position, element_value);
                    }
                },
                BasicMatrixType::NonSymmetric => {
                    self.elements_values.insert(position, element_value);
                },
            }
        }
    }

    /// Removes what is stored at the position.
    pub fn remove_matrix_element(&mut self, matrix_element_position: MatrixElementPosition<T>)
        requires
            matrix_element_position.row().number() <= usize::MAX,
            matrix_element_position.column().number() <= usize::MAX,
        ensures
            final(self).rows_number() == old(self).rows_number(),
            final(self).columns_number() == old(self).columns_number(),
            final(self).kind() == old(self).kind(),
            final(self).elements() == old(self).elements().remove(
                place_of(matrix_element_position),
            ),
    {
        let position = matrix_element_position.position();
        self.elements_values.remove(&position);
    }

    /// Adds `element_value` to the value stored at the position, subtracts
    /// it from it or multiplies it by it.
    pub fn add_sub_mul_assign_matrix_element_value(
        &mut self,
        matrix_element_position: MatrixElementPosition<T>,
        element_value: V,
        operation: Operation,
    )
        requires
            obeys_arithmetic::<V>(),
            matrix_element_position.row().number() <= usize::MAX,
            matrix_element_position.column().number() <= usize::MAX,
        ensures
            final(self).rows_number() == old(self).rows_number(),
            final(self).columns_number() == old(self).columns_number(),
            final(self).kind() == old(self).kind(),
            final(self).elements() == assigned(
                old(self).kind(),
                old(self).elements(),
                place_of(matrix_element_position),
                element_value,
                operation,
            ),
    {
        let position = matrix_element_position.position();
        if let BasicMatrixType::Symmetric = self.matrix_type {
            if position.0 > position.1 {
                return ;
            }
        }
        let stored: Option<V> = match self.elements_values.get(&position) {
            Some(v) => Some(*v),
            None => None,
        };
        match stored {
            Some(existed) => {
                let value: V = match operation {
                    Operation::Addition => existed + element_value,
                    Operation::Subtraction => existed - element_value,
                    Operation::Multiplication => existed * element_value,
                };
                self.elements_values.insert(position, value);
            },
            None => {
                match operation {
                    Operation::Addition => {
                        self.elements_values.insert(position, element_value);
                    },
                    Operation::Subtraction => {
                        let minus_one: V = one_value::<V>().neg();
                        self.elements_values.insert(position, element_value * minus_one);
                    },
                    Operation::Multiplication => {},
                }
            },
        }
    }

    /// What the position reads as: the stored value or zero; for a
    /// symmetric matrix the value kept for the position on or above the
    /// diagonal. Fails for a position outside the matrix.
    pub fn copy_element_value_or_zero(&self, matrix_element_position: MatrixElementPosition<T>) -> (r:
        Result<V, String>)
        requires
            obeys_arithmetic::<V>(),
            self.in_range(),
            matrix_element_position.row().number() <= usize::MAX,
            matrix_element_position.column().number() <= usize::MAX,
        ensures
            r.is_ok() == self.shape().holds(place_of(matrix_element_position)),
            r matches Ok(v) ==> v == self.reading(place_of(matrix_element_position)),
            r matches Err(e) ==> e@ == out_of_size_text(),
    {
        if let Err(e) = self.matrix_size_check(&matrix_element_position) {
            return Err(e);
        }
        let mut position = matrix_element_position.position();
        if let BasicMatrixType::Symmetric = self.matrix_type {
            if position.0 > position.1 {
                position.swap_row_and_column();
            }
        }
        let value: V = match self.elements_values.get(&position) {
            Some(v) => *v,
            None => zero_value(),
        };
        Ok(value)
    }

    pub fn copy_shape(&self) -> (r: Shape<T>)
        ensures
            r == Shape(self.rows_number(), self.columns_number()),
    {
        Shape(self.rows_number, self.columns_number)
    }

    pub fn ref_matrix_type(&self) -> (r: &BasicMatrixType)
        ensures
            *r == self.kind(),
    {
        &self.matrix_type
    }

    pub fn ref_elements_values(&self) -> (r: &Elements<V>)
        ensures
            r@ == self.elements(),
    {
        &self.elements_values
    }
    /// The matrix of the given size that `all_elements_values` lists row
    /// by row, of the kind that the listing describes. Fails where the
    /// listing is too short.
    pub fn create(rows_number: T, columns_number: T, all_elements_values: Vec<V>, tolerance: V) -> (r:
        Result<Self, String>)
        requires
            obeys_arithmetic::<V>(),
            rows_number.number() * columns_number.number() <= usize::MAX,
            rows_number.number() <= usize::MAX,
            columns_number.number() <= usize::MAX,
        ensures
            r.is_ok() == (rows_number.number() * columns_number.number()
                <= all_elements_values.len()),
            r matches Err(e) ==> e@ == incorrect_number_text(),
            r matches Ok(m) ==> m.rows_number() == rows_number && m.columns_number()
                == columns_number && m.kind() == listing_kind(
                m.shape(),
                all_elements_values@,
                tolerance,
            ) && m.elements() == significant_part(
                m.shape(),
                all_elements_values@,
                tolerance,
                m.kind(),
            ),
    {
        let rows: usize = rows_number.into_usize();
        let columns: usize = columns_number.into_usize();
        let shape = Shape(rows, columns);
        let ghost values = all_elements_values@;
        let ghost all = significant_part(shape, values, tolerance, BasicMatrixType::NonSymmetric);
        let ghost upper = significant_part(shape, values, tolerance, BasicMatrixType::Symmetric);
        let mut symmetric_elements_values: Elements<V> = Elements::new();
        let mut nonsymmetric_elements_values: Elements<V> = Elements::new();
        let mut is_symmetric: bool = rows == columns;
        let mut row: usize = 0;
        while row < rows
            invariant
                obeys_arithmetic::<V>(),
                rows * columns <= usize::MAX,
                rows == rows_number.number(),
                columns == columns_number.number(),
                shape == Shape(rows, columns),
                values == all_elements_values@,
                all == significant_part(shape, values, tolerance, BasicMatrixType::NonSymmetric),
                upper == significant_part(shape, values, tolerance, BasicMatrixType::Symmetric),
                row <= rows,
                row > 0 ==> rows * columns <= values.len(),
                nonsymmetric_elements_values@ == all.restrict(scanned(shape, row, 0)),
                is_symmetric ==> symmetric_elements_values@ == upper.restrict(
                    scanned(shape, row, 0),
                ),
                is_symmetric == (rows == columns && forall|p: Position| #[trigger]
                    scanned(shape, row, 0).contains(p) && p.0 > p.1 ==> agrees(
                        shape,
                        values,
                        tolerance,
                        p,
                    )),
            decreases rows - row,
        {
            let mut column: usize = 0;
            while column < columns
                invariant
                    obeys_arithmetic::<V>(),
                    rows * columns <= usize::MAX,
                    rows == rows_number.number(),
                    columns == columns_number.number(),
                    shape == Shape(rows, columns),
                    values == all_elements_values@,
                    all == significant_part(
                        shape,
                        values,
                        tolerance,
                        BasicMatrixType::NonSymmetric,
                    ),
                    upper == significant_part(shape, values, tolerance, BasicMatrixType::Symmetric),
                    row < rows,
                    column <= columns,
                    row > 0 || column > 0 ==> rows * columns <= values.len(),
                    nonsymmetric_elements_values@ == all.restrict(scanned(shape, row, column)),
                    is_symmetric ==> symmetric_elements_values@ == upper.restrict(
                        scanned(shape, row, column),
                    ),
                    is_symmetric == (rows == columns && forall|p: Position| #[trigger]
                        scanned(shape, row, column).contains(p) && p.0 > p.1 ==> agrees(
                            shape,
                            values,
                            tolerance,
                            p,
                        )),
                decreases columns - column,
            {
                let position = Position(row, column);
                proof {
                    lemma_flat_bound(shape, position);
                }
                if all_elements_values.len() < rows * columns {
                    return Err(String::from_str("Basic matrix: Incorrect number of elements!"));
                }
                let index: usize = row * columns + column;
                let element_value: V = all_elements_values[index];
                let large: bool = is_significant(element_value, tolerance);
                if large {
                    nonsymmetric_elements_values.insert(position, element_value);
                }
                if row <= column && is_symmetric && large {
                    symmetric_elements_values.insert(position, element_value);
                }
                if row > column {
                    let mirror = Position(column, row);
                    let ghost was_symmetric = is_symmetric;
                    if is_symmetric {
                        assert(shape.holds(mirror));
                        assert(scanned(shape, row, column).contains(mirror));
                        match symmetric_elements_values.get(&mirror) {
                            Some(symmetric_element_value) => {
                                if *symmetric_element_value != element_value {
                                    is_symmetric = false;
                                }
                            },
                            None => {
                                if large {
                                    is_symmetric = false;
                                }
                            },
                        }
                        assert(is_symmetric == agrees(shape, values, tolerance, position));
                    }
                }
                column += 1;
                assert(nonsymmetric_elements_values@ =~= all.restrict(
                    scanned(shape, row, column),
                ));
                assert(is_symmetric ==> symmetric_elements_values@ =~= upper.restrict(
                    scanned(shape, row, column),
                ));
                assert(is_symmetric == (rows == columns && forall|p: Position| #[trigger]
                    scanned(shape, row, column).contains(p) && p.0 > p.1 ==> agrees(
                        shape,
                        values,
                        tolerance,
                        p,
                    ))) by {
                    if !is_symmetric && rows == columns {
                        if row > column - 1 && !agrees(shape, values, tolerance, position) {
                            assert(scanned(shape, row, column).contains(position));
                        } else {
                            let p = choose|p: Position| #[trigger]
                                scanned(shape, row, (column - 1) as usize).contains(p) && p.0
                                    > p.1 && !agrees(shape, values, tolerance, p);
                            assert(scanned(shape, row, column).contains(p));
                        }
                    }
                    if is_symmetric {
                        assert forall|p: Position| #[trigger]
                            scanned(shape, row, column).contains(p) && p.0 > p.1 implies agrees(
                            shape,
                            values,
                            tolerance,
                            p,
                        ) by {
                            if p != position {
                                assert(scanned(shape, row, (column - 1) as usize).contains(p));
                            }
                        }
                    }
                }
            }
            row += 1;
            assert(columns == 0 ==> rows * columns == 0) by (nonlinear_arith);
            assert(nonsymmetric_elements_values@ =~= all.restrict(scanned(shape, row, 0)));
            assert(is_symmetric ==> symmetric_elements_values@ =~= upper.restrict(
                scanned(shape, row, 0),
            ));
            assert(is_symmetric == (rows == columns && forall|p: Position| #[trigger]
                scanned(shape, row, 0).contains(p) && p.0 > p.1 ==> agrees(
                    shape,
                    values,
                    tolerance,
                    p,
                ))) by {
                if !is_symmetric && rows == columns {
                    let p = choose|p: Position| #[trigger]
                        scanned(shape, (row - 1) as usize, columns).contains(p) && p.0 > p.1
                            && !agrees(shape, values, tolerance, p);
                    assert(scanned(shape, row, 0).contains(p));
                }
                if is_symmetric {
                    assert forall|p: Position| #[trigger]
                        scanned(shape, row, 0).contains(p) && p.0 > p.1 implies agrees(
                        shape,
                        values,
                        tolerance,
                        p,
                    ) by {
                        assert(scanned(shape, (row - 1) as usize, columns).contains(p));
                    }
                }
            }
        }
        proof {
            assert(nonsymmetric_elements_values@ =~= all);
            assert(is_symmetric ==> symmetric_elements_values@ =~= upper);
            assert(is_symmetric == symmetric_listing(shape, values, tolerance)) by {
                if is_symmetric {
                    assert forall|p: Position| #[trigger]
                        shape.holds(p) && p.0 > p.1 implies agrees(shape, values, tolerance, p) by {
                        assert(scanned(shape, row, 0).contains(p));
                    }
                }
            }
            if rows == 0 {
                assert(rows * columns == 0) by (nonlinear_arith)
                    requires
                        rows == 0,
                ;
            }
        }
        let (matrix_type, elements_values) = if is_symmetric {
            (BasicMatrixType::Symmetric, symmetric_elements_values)
        } else {
            (BasicMatrixType::NonSymmetric, nonsymmetric_elements_values)
        };
        Ok(BasicMatrix { rows_number, columns_number, matrix_type, elements_values })
    }

    /// Exchanges rows and columns: every stored value moves to its mirror
    /// position. A symmetric matrix stays as it is.
    pub fn transpose(&mut self)
        ensures
            final(self).kind() == old(self).kind(),
            old(self).kind() == BasicMatrixType::Symmetric ==> final(self).rows_number() == old(
                self,
            ).rows_number() && final(self).columns_number() == old(self).columns_number()
                && final(self).elements() == old(self).elements(),
            old(self).kind() == BasicMatrixType::NonSymmetric ==> final(self).rows_number()
                == old(self).columns_number() && final(self).columns_number() == old(
                self,
            ).rows_number() && final(self).elements() == rearranged(
                old(self).elements(),
                Rearrangement::Transposed,
            ),
    {
        match self.matrix_type {
            BasicMatrixType::Symmetric => (),
            BasicMatrixType::NonSymmetric => {
                let transposed_elements = rearrange(
                    &self.elements_values,
                    Rearrangement::Transposed,
                );
                let rows_number: T = self.rows_number;
                self.elements_values = transposed_elements;
                self.rows_number = self.columns_number;
                self.columns_number = rows_number;
            },
        }
    }

    /// Multiplies every stored value by `number`.
    pub fn multiply_by_number(&mut self, number: V)
        requires
            obeys_arithmetic::<V>(),
        ensures
            final(self).rows_number() == old(self).rows_number(),
            final(self).columns_number() == old(self).columns_number(),
            final(self).kind() == old(self).kind(),
            final(self).elements() == scaled(old(self).elements(), number),
    {
        let elements = scale(&self.elements_values, number);
        self.elements_values = elements;
    }

    /// Turns a symmetric matrix into a general one that stores below the
    /// diagonal what it stored above it.
    pub fn into_nonsymmetric(&mut self)
        ensures
            final(self).rows_number() == old(self).rows_number(),
            final(self).columns_number() == old(self).columns_number(),
            final(self).kind() == BasicMatrixType::NonSymmetric,
            old(self).kind() == BasicMatrixType::NonSymmetric ==> final(self).elements() == old(
                self,
            ).elements(),
            old(self).kind() == BasicMatrixType::Symmetric ==> final(self).elements()
                == rearranged(old(self).elements(), Rearrangement::Unfolded),
    {
        if let BasicMatrixType::Symmetric = self.matrix_type {
            let unfolded = rearrange(&self.elements_values, Rearrangement::Unfolded);
            self.elements_values = unfolded;
            self.matrix_type = BasicMatrixType::NonSymmetric;
        }
    }

    /// Turns a general matrix into a symmetric one where every value
    /// stored off the diagonal has a stored mirror image that differs from
    /// it by less than the tolerance; the values on and above the diagonal
    /// are kept. Otherwise nothing changes.
    pub fn try_to_symmetrize(&mut self, tolerance: V)
        requires
            obeys_arithmetic::<V>(),
        ensures
            final(self).rows_number() == old(self).rows_number(),
            final(self).columns_number() == old(self).columns_number(),
            old(self).kind() == BasicMatrixType::NonSymmetric && symmetrizable(
                old(self).elements(),
                tolerance,
            ) ==> final(self).kind() == BasicMatrixType::Symmetric && final(self).elements()
                == rearranged(old(self).elements(), Rearrangement::Upper),
            !(old(self).kind() == BasicMatrixType::NonSymmetric && symmetrizable(
                old(self).elements(),
                tolerance,
            )) ==> final(self).kind() == old(self).kind() && final(self).elements() == old(
                self,
            ).elements(),
    {
        if let BasicMatrixType::Symmetric = self.matrix_type {
            return ;
        }
        let entries = self.elements_values.entries();
        let mut i: usize = 0;
        while i < entries.len()
            invariant
                obeys_arithmetic::<V>(),
                *self == *old(self),
                lists(entries@, self.elements()),
                i <= entries.len(),
                forall|k: int|
                    0 <= k < i && (#[trigger] entries@[k]).0.0 != entries@[k].0.1
                        ==> close_to_mirror(self.elements(), tolerance, entries@[k].0),
            decreases entries.len() - i,
        {
            let position: Position = entries[i].0;
            if position.0 != position.1 {
                let mirror = Position(position.1, position.0);
                let close: bool = match self.elements_values.get(&mirror) {
                    Some(symmetric_element_value) => is_less(
                        magnitude_of(entries[i].1 - *symmetric_element_value),
                        tolerance,
                    ),
                    None => false,
                };
                if !close {
                    assert(!close_to_mirror(self.elements(), tolerance, position));
                    return ;
                }
            }
            i += 1;
        }
        assert(symmetrizable(self.elements(), tolerance)) by {
            assert forall|p: Position| #[trigger]
                self.elements().contains_key(p) && p.0 != p.1 implies close_to_mirror(
                self.elements(),
                tolerance,
                p,
            ) by {
                let k = choose|k: int| 0 <= k < entries@.len() && #[trigger] entries@[k].0 == p;
                assert(entries@[k].0.0 != entries@[k].0.1);
            }
        }
        let upper = rearrange(&self.elements_values, Rearrangement::Upper);
        self.elements_values = upper;
        self.matrix_type = BasicMatrixType::Symmetric;
    }

    /// Takes the given row out of the matrix, which becomes a general one;
    /// the rows below it move up.
    pub fn remove_selected_row(&mut self, row: T)
        requires
            old(self).in_range(),
            old(self).rows_number().number() >= 1,
            row.number() <= usize::MAX,
        ensures
            final(self).in_range(),
            final(self).content() == without_row(old(self).content(), row.number() as usize),
    {
        self.into_nonsymmetric();
        let rows: usize = self.rows_number.into_usize();
        let moved = rearrange(
            &self.elements_values,
            Rearrangement::WithoutRowOf(row.into_usize(), self.columns_number.into_usize()),
        );
        proof {
            self.rows_number.lemma_number_bound();
        }
        self.rows_number = T::from_usize(rows - 1);
        self.elements_values = moved;
    }

    /// Takes the given column out of the matrix, which becomes a general
    /// one; the columns right of it move left.
    pub fn remove_selected_column(&mut self, column: T)
        requires
            old(self).in_range(),
            old(self).columns_number().number() >= 1,
            column.number() <= usize::MAX,
        ensures
            final(self).in_range(),
            final(self).content() == without_column(
                old(self).content(),
                column.number() as usize,
            ),
    {
        self.into_nonsymmetric();
        let columns: usize = self.columns_number.into_usize();
        let moved = rearrange(
            &self.elements_values,
            Rearrangement::WithoutColumnOf(column.into_usize(), self.rows_number.into_usize()),
        );
        proof {
            self.columns_number.lemma_number_bound();
        }
        self.columns_number = T::from_usize(columns - 1);
        self.elements_values = moved;
    }

    /// Whether nothing is stored in the given row.
    fn is_empty_row(&self, row: usize, columns: usize) -> (r: bool)
        ensures
            r == empty_row_upto(self.elements(), row, columns),
    {
        let mut column: usize = 0;
        while column < columns
            invariant
                column <= columns,
                empty_row_upto(self.elements(), row, column),
            decreases columns - column,
        {
            if self.elements_values.contains(&Position(row, column)) {
                return false;
            }
            column += 1;
        }
        true
    }

    /// Whether nothing is stored in the given column.
    fn is_empty_column(&self, column: usize, rows: usize) -> (r: bool)
        ensures
            r == empty_column_upto(self.elements(), column, rows),
    {
        let mut row: usize = 0;
        while row < rows
            invariant
                row <= rows,
                empty_column_upto(self.elements(), column, row),
            decreases rows - row,
        {
            if self.elements_values.contains(&Position(row, column)) {
                return false;
            }
            row += 1;
        }
        true
    }

    /// Takes empty rows and empty columns out of the matrix in pairs: the
    /// lowest empty row with the rightmost empty column, and so on upwards
    /// and leftwards, as long as there is one of each. Returns the pairs.
    pub fn remove_zeros_rows_columns(&mut self) -> (r: Vec<MatrixElementPosition<T>>)
        requires
            old(self).in_range(),
        ensures
            final(self).in_range(),
            ({
                let rows = empty_rows(old(self).shape(), old(self).elements(), old(self).shape().0 as nat);
                let columns = empty_columns(
                    old(self).shape(),
                    old(self).elements(),
                    old(self).shape().1 as nat,
                );
                let pairs = smaller(rows.len(), columns.len());
                &&& r.len() == pairs
                &&& forall|i: int|
                    0 <= i < pairs ==> place_of(#[trigger] r@[i]) == Position(rows[i], columns[i])
                &&& final(self).content() == stripped(old(self).content(), rows, columns, pairs)
            }),
    {
        let shape = Shape(self.rows_number.into_usize(), self.columns_number.into_usize());
        let mut rows_for_remove: Vec<usize> = Vec::new();
        let mut taken: usize = 0;
        while taken < shape.0
            invariant
                shape == self.shape(),
                *self == *old(self),
                taken <= shape.0,
                rows_for_remove@ == empty_rows(shape, self.elements(), taken as nat),
                forall|i: int| 0 <= i < rows_for_remove.len() ==> #[trigger] rows_for_remove@[i] < shape.0,
            decreases shape.0 - taken,
        {
            taken += 1;
            let row: usize = shape.0 - taken;
            if self.is_empty_row(row, shape.1) {
                rows_for_remove.push(row);
            }
        }
        let mut columns_for_remove: Vec<usize> = Vec::new();
        let mut taken: usize = 0;
        while taken < shape.1
            invariant
                shape == self.shape(),
                *self == *old(self),
                taken <= shape.1,
                columns_for_remove@ == empty_columns(shape, self.elements(), taken as nat),
                forall|i: int|
                    0 <= i < columns_for_remove.len() ==> #[trigger] columns_for_remove@[i]
                        < shape.1,
            decreases shape.1 - taken,
        {
            taken += 1;
            let column: usize = shape.1 - taken;
            if self.is_empty_column(column, shape.0) {
                columns_for_remove.push(column);
            }
        }
        let pairs: usize = if rows_for_remove.len() <= columns_for_remove.len() {
            rows_for_remove.len()
        } else {
            columns_for_remove.len()
        };
        proof {
            self.rows_number.lemma_number_bound();
            self.columns_number.lemma_number_bound();
            lemma_empty_count(shape, self.elements(), shape.0 as nat);
            lemma_empty_columns_count(shape, self.elements(), shape.1 as nat);
        }
        let mut zeros_rows_columns: Vec<MatrixElementPosition<T>> = Vec::new();
        let mut i: usize = 0;
        while i < pairs
            invariant
                i <= pairs,
                pairs <= rows_for_remove.len() <= shape.0,
                pairs <= columns_for_remove.len() <= shape.1,
                shape == old(self).shape(),
                shape.0 <= T::limit(),
                shape.1 <= T::limit(),
                self.in_range(),
                self.shape() == Shape((shape.0 - i) as usize, (shape.1 - i) as usize),
                forall|k: int| 0 <= k < rows_for_remove.len() ==> #[trigger] rows_for_remove@[k] < shape.0,
                forall|k: int|
                    0 <= k < columns_for_remove.len() ==> #[trigger] columns_for_remove@[k]
                        < shape.1,
                zeros_rows_columns.len() == i,
                forall|k: int|
                    0 <= k < i ==> place_of(#[trigger] zeros_rows_columns@[k]) == Position(
                        rows_for_remove@[k],
                        columns_for_remove@[k],
                    ),
                self.content() == stripped(
                    old(self).content(),
                    rows_for_remove@,
                    columns_for_remove@,
                    i as nat,
                ),
            decreases pairs - i,
        {
            let row: T = T::from_usize(rows_for_remove[i]);
            let column: T = T::from_usize(columns_for_remove[i]);
            zeros_rows_columns.push(MatrixElementPosition::create(row, column));
            self.remove_selected_row(row);
            self.remove_selected_column(column);
            i += 1;
        }
        zeros_rows_columns
    }
}

/// There are no more empty rows than rows.
pub proof fn lemma_empty_count<V>(shape: Shape, elements: Map<Position, V>, taken: nat)
    ensures
        empty_rows(shape, elements, taken).len() <= taken,
        empty_rows(shape, elements, taken).len() <= shape.0,
    decreases taken,
{
    if taken > 0 && taken <= shape.0 {
        lemma_empty_count(shape, elements, (taken - 1) as nat);
    }
}

/// There are no more empty columns than columns.
pub proof fn lemma_empty_columns_count<V>(shape: Shape, elements: Map<Position, V>, taken: nat)
    ensures
        empty_columns(shape, elements, taken).len() <= taken,
        empty_columns(shape, elements, taken).len() <= shape.1,
    decreases taken,
{
    if taken > 0 && taken <= shape.1 {
        lemma_empty_columns_count(shape, elements, (taken - 1) as nat);
    }
}

/// Every value that `first` stores is stored by `second` too, under the
/// same position and with a value that compares equal to it.
pub open spec fn held_by<V: FloatTrait>(first: Map<Position, V>, second: Map<Position, V>) -> bool {
    forall|p: Position| #[trigger]
        first.contains_key(p) ==> second.contains_key(p) && second[p].eq_spec(&first[p])
}

impl<T: UIntTrait + PartialEq, V: FloatTrait> PartialEq for BasicMatrix<T, V> {
    /// A matrix equals another of its shape and kind that stores every
    /// value it stores; the other may store more.
    fn eq(&self, other: &Self) -> (r: bool) {
        if self.rows_number != other.rows_number || self.columns_number != other.columns_number
            || self.matrix_type != other.matrix_type {
            return false;
        }
        let entries = self.elements_values.entries();
        let mut i: usize = 0;
        while i < entries.len()
            invariant
                i <= entries.len(),
                lists(entries@, self.elements()),
                V::obeys_eq_spec() ==> forall|k: int|
                    0 <= k < i ==> other.elements().contains_key((#[trigger] entries@[k]).0)
                        && other.elements()[entries@[k].0].eq_spec(&entries@[k].1),
            decreases entries.len() - i,
        {
            let entry = entries[i];
            match other.elements_values.get(&entry.0) {
                None => {
                    return false;
                },
                Some(v) => {
                    if *v != entry.1 {
                        return false;
                    }
                },
            }
            i += 1;
        }
        proof {
            if V::obeys_eq_spec() {
                assert forall|p: Position| #[trigger] self.elements().contains_key(p) implies
                    other.elements().contains_key(p) && other.elements()[p].eq_spec(
                    &self.elements()[p],
                ) by {
                    let k = choose|k: int| 0 <= k < entries@.len() && (#[trigger] entries@[k]).0 == p;
                    assert(other.elements().contains_key(entries@[k].0));
                }
            }
        }
        true
    }
}

impl<T: UIntTrait + PartialEq, V: FloatTrait> PartialEqSpecImpl for BasicMatrix<T, V> {
    open spec fn obeys_eq_spec() -> bool {
        T::obeys_eq_spec() && V::obeys_eq_spec()
    }

    open spec fn eq_spec(&self, other: &Self) -> bool {
        &&& self.rows_number().eq_spec(&other.rows_number())
        &&& self.columns_number().eq_spec(&other.columns_number())
        &&& self.kind() == other.kind()
        &&& held_by(self.elements(), other.elements())
    }
}

} // verus!
