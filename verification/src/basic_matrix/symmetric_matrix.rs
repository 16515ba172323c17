use vstd::prelude::*;
use vstd::std_specs::ops::MulSpec;
use crate::basic_matrix::non_symmetric_matrix::usize_slice;
use crate::basic_matrix::{out_of_size_text, BasicMatrixType};
use crate::float_trait::{obeys_arithmetic, zero, FloatTrait};
use crate::functions::{copy_value_by_index, first_place, matrix_size_check, numbers};
use crate::shape::Shape;
use crate::uint_trait::UIntTrait;

verus! {

/// A symmetric sparse matrix kept as two lists: for each value stored on or
/// above the diagonal its place in a row-by-row listing of the matrix, and
/// the value.
#[derive(Debug, Clone)]
pub struct SymmetricMatrix<T, V> {
    rows_and_columns_number: T,
    elements_indexes: Vec<T>,
    elements_values: Vec<V>,
}

impl<T: UIntTrait, V: Copy> SymmetricMatrix<T, V> {
    pub closed spec fn rows_and_columns_number(&self) -> T {
        self.rows_and_columns_number
    }

    pub closed spec fn elements_indexes(&self) -> Seq<T> {
        self.elements_indexes@
    }

    pub closed spec fn elements_values(&self) -> Seq<V> {
        self.elements_values@
    }

    pub fn create(
        rows_and_columns_number: T,
        elements_indexes: Vec<T>,
        elements_values: Vec<V>,
    ) -> (r: Self)
        ensures
            r.rows_and_columns_number() == rows_and_columns_number,
            r.elements_indexes() == elements_indexes@,
            r.elements_values() == elements_values@,
    {
        SymmetricMatrix { rows_and_columns_number, elements_indexes, elements_values }
    }

    pub fn ref_rows_and_columns_number(&self) -> (r: &T)
        ensures
            *r == self.rows_and_columns_number(),
    {
        &self.rows_and_columns_number
    }

    pub fn ref_elements_indexes(&self) -> (r: &[T])
        ensures
            r@ == self.elements_indexes(),
    {
        self.elements_indexes.as_slice()
    }

    pub fn ref_elements_values(&self) -> (r: &[V])
        ensures
            r@ == self.elements_values(),
    {
        self.elements_values.as_slice()
    }

    pub fn copy_shape(&self) -> (r: Shape<T>)
        ensures
            r == Shape(self.rows_and_columns_number(), self.rows_and_columns_number()),
    {
        Shape(self.rows_and_columns_number, self.rows_and_columns_number)
    }

    pub fn define_type(&self) -> (r: BasicMatrixType)
        ensures
            r == BasicMatrixType::Symmetric,
    {
        BasicMatrixType::Symmetric
    }

    /// A symmetric matrix is its own transpose.
    pub fn transpose(&mut self)
        ensures
            *final(self) == *old(self),
    {
    }
}

impl<T: UIntTrait, V: FloatTrait> SymmetricMatrix<T, V> {
    /// What the given row and column read as: the value listed for the
    /// place on or above the diagonal, or zero. Fails outside the matrix.
    pub fn read_element_value(&self, row: T, column: T) -> (r: Result<V, &'static str>)
        requires
            obeys_arithmetic::<V>(),
            self.rows_and_columns_number().number() * self.rows_and_columns_number().number()
                <= usize::MAX,
            self.rows_and_columns_number().number() <= usize::MAX,
            row.number() <= usize::MAX,
            column.number() <= usize::MAX,
            self.elements_indexes().len() <= self.elements_values().len(),
            forall|i: int|
                0 <= i < self.elements_indexes().len() ==> (#[trigger] self.elements_indexes()[i]).number()
                    <= usize::MAX,
        ensures
            r.is_ok() == (row.number() < self.rows_and_columns_number().number()
                && column.number() < self.rows_and_columns_number().number()),
            r matches Err(e) ==> e@ == out_of_size_text(),
            r matches Ok(v) ==> v == (match first_place(
                (if row.number() <= column.number() {
                    row.number() * self.rows_and_columns_number().number() + column.number()
                } else {
                    column.number() * self.rows_and_columns_number().number() + row.number()
                }),
                numbers(self.elements_indexes()),
                0,
            ) {
                Some(place) => self.elements_values()[place],
                None => zero::<V>(),
            }),
    {
        if let Err(e) = matrix_size_check(
            row,
            column,
            (self.rows_and_columns_number, self.rows_and_columns_number),
        ) {
            return Err(e);
        }
        let order: usize = self.rows_and_columns_number.into_usize();
        let (upper, lower): (usize, usize) = if row.into_usize() <= column.into_usize() {
            (row.into_usize(), column.into_usize())
        } else {
            (column.into_usize(), row.into_usize())
        };
        proof {
            assert(upper * order + lower < order * order) by (nonlinear_arith)
                requires
                    upper < order,
                    lower < order,
            ;
        }
        let requested: usize = upper * order + lower;
        Ok(
            copy_value_by_index(
                requested,
                usize_slice(&self.elements_indexes).as_slice(),
                self.elements_values.as_slice(),
            ),
        )
    }

    /// Multiplies every listed value by `number`.
    pub fn multiply_by_number(&mut self, number: V)
        requires
            obeys_arithmetic::<V>(),
        ensures
            final(self).rows_and_columns_number() == old(self).rows_and_columns_number(),
            final(self).elements_indexes() == old(self).elements_indexes(),
            final(self).elements_values() == Seq::new(
                old(self).elements_values().len(),
                |i: int| old(self).elements_values()[i].mul_spec(number),
            ),
    {
        let mut i: usize = 0;
        while i < self.elements_values.len()
            invariant
                obeys_arithmetic::<V>(),
                i <= self.elements_values.len(),
                self.elements_values.len() == old(self).elements_values().len(),
                self.rows_and_columns_number == old(self).rows_and_columns_number(),
                self.elements_indexes@ == old(self).elements_indexes(),
                forall|k: int|
                    0 <= k < i ==> self.elements_values@[k] == old(self).elements_values()[k].mul_spec(
                        number,
                    ),
                forall|k: int|
                    i <= k < self.elements_values.len()
                        ==> self.elements_values@[k] == old(self).elements_values()[k],
            decreases self.elements_values.len() - i,
        {
            let product: V = self.elements_values[i] * number;
            self.elements_values[i] = product;
            i += 1;
        }
        assert(self.elements_values@ =~= Seq::new(
            old(self).elements_values().len(),
            |i: int| old(self).elements_values()[i].mul_spec(number),
        ));
    }
}

} // verus!
