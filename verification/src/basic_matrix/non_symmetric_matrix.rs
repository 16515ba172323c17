use vstd::prelude::*;
use vstd::std_specs::ops::MulSpec;
use crate::basic_matrix::{out_of_size_text, BasicMatrixType};
use crate::float_trait::{obeys_arithmetic, zero, FloatTrait};
use crate::functions::{copy_value_by_index, first_place, matrix_size_check, numbers};
use crate::shape::Shape;
use crate::uint_trait::UIntTrait;

verus! {

/// A general sparse matrix kept as two lists: for each stored value its
/// place in a row-by-row listing of the matrix, and the value.
#[derive(Debug, Clone)]
pub struct NonSymmetricMatrix<T, V> {
    rows_number: T,
    columns_number: T,
    elements_indexes: Vec<T>,
    elements_values: Vec<V>,
}

/// The index after the given row was taken out of a matrix with `columns`
/// columns: an index above the first place of the row moves up by one row.
pub open spec fn index_without_row(index: nat, row: nat, columns: nat) -> nat {
    if index > row * columns {
        (index - columns) as nat
    } else {
        index
    }
}

/// The index after the given column was taken out of a matrix with
/// `columns` columns: it loses one place for each row above it, and one
/// more where it stands right of the column.
pub open spec fn index_without_column(index: nat, column: nat, columns: nat) -> nat {
    if index % columns > column {
        (index - (index / columns + 1)) as nat
    } else {
        (index - index / columns) as nat
    }
}


impl<T: UIntTrait, V: Copy> NonSymmetricMatrix<T, V> {
    pub closed spec fn rows_number(&self) -> T {
        self.rows_number
    }

    pub closed spec fn columns_number(&self) -> T {
        self.columns_number
    }

    pub closed spec fn elements_indexes(&self) -> Seq<T> {
        self.elements_indexes@
    }

    pub closed spec fn elements_values(&self) -> Seq<V> {
        self.elements_values@
    }

    pub fn create(
        rows_number: T,
        columns_number: T,
        elements_indexes: Vec<T>,
        elements_values: Vec<V>,
    ) -> (r: Self)
        ensures
            r.rows_number() == rows_number,
            r.columns_number() == columns_number,
            r.elements_indexes() == elements_indexes@,
            r.elements_values() == elements_values@,
    {
        NonSymmetricMatrix { rows_number, columns_number, elements_indexes, elements_values }
    }

    pub fn ref_rows_number(&self) -> (r: &T)
        ensures
            *r == self.rows_number(),
    {
        &self.rows_number
    }

    pub fn ref_columns_number(&self) -> (r: &T)
        ensures
            *r == self.columns_number(),
    {
        &self.columns_number
    }

    pub fn ref_elements_indexes(&self) -> (r: &[T])
        ensures
            r@ == self.elements_indexes(),
    {
        self.elements_indexes.as_slice()
    }

    pub fn ref_elements_values(&self) -> (r: &[V])
        ensures
            r@ == self.elements_values(),
    {
        self.elements_values.as_slice()
    }

    pub fn copy_shape(&self) -> (r: Shape<T>)
        ensures
            r == Shape(self.rows_number(), self.columns_number()),
    {
        Shape(self.rows_number, self.columns_number)
    }

    pub fn define_type(&self) -> (r: BasicMatrixType)
        ensures
            r == BasicMatrixType::NonSymmetric,
    {
        BasicMatrixType::NonSymmetric
    }

    /// Takes the given row out of the matrix: the indexes above the first
    /// place of the row move up by one row.
    pub fn remove_row(&mut self, row: T)
        requires
            old(self).rows_number().number() >= 1,
            old(self).rows_number().number() <= usize::MAX,
            row.number() * old(self).columns_number().number() <= usize::MAX,
            old(self).columns_number().number() <= usize::MAX,
            row.number() <= usize::MAX,
            forall|i: int|
                0 <= i < old(self).elements_indexes().len()
                    ==> (#[trigger] old(self).elements_indexes()[i]).number() <= usize::MAX
                    && (old(self).elements_indexes()[i].number() > row.number() * old(self).columns_number().number()
                    ==> old(self).elements_indexes()[i].number()
                    >= old(self).columns_number().number()),
        ensures
            final(self).rows_number().number() == old(self).rows_number().number() - 1,
            final(self).columns_number() == old(self).columns_number(),
            final(self).elements_values() == old(self).elements_values(),
            final(self).elements_indexes().len() == old(self).elements_indexes().len(),
            forall|i: int|
                0 <= i < old(self).elements_indexes().len()
                    ==> (#[trigger] final(self).elements_indexes()[i]).number()
                    == index_without_row(
                    old(self).elements_indexes()[i].number(),
                    row.number(),
                    old(self).columns_number().number(),
                ),
    {
        let columns: usize = self.columns_number.into_usize();
        let first: usize = row.into_usize() * columns;
        let mut i: usize = 0;
        while i < self.elements_indexes.len()
            invariant
                i <= self.elements_indexes.len(),
                self.elements_indexes.len() == old(self).elements_indexes().len(),
                self.rows_number == old(self).rows_number(),
                self.columns_number == old(self).columns_number(),
                self.elements_values@ == old(self).elements_values(),
                columns == old(self).columns_number().number(),
                first == row.number() * old(self).columns_number().number(),
                forall|k: int|
                    i <= k < self.elements_indexes.len()
                        ==> self.elements_indexes@[k] == old(self).elements_indexes()[k],
                forall|k: int|
                    0 <= k < old(self).elements_indexes().len()
                        ==> (#[trigger] old(self).elements_indexes()[k]).number() <= usize::MAX
                        && (old(self).elements_indexes()[k].number() > first
                        ==> old(self).elements_indexes()[k].number() >= columns),
                forall|k: int|
                    0 <= k < i ==> (#[trigger] self.elements_indexes@[k]).number()
                        == index_without_row(
                        old(self).elements_indexes()[k].number(),
                        row.number(),
                        old(self).columns_number().number(),
                    ),
            decreases self.elements_indexes.len() - i,
        {
            let old_index: T = self.elements_indexes[i];
            assert(old_index == old(self).elements_indexes()[i as int]);
            let index: usize = old_index.into_usize();
            if index > first {
                proof {
                    old_index.lemma_number_bound();
                }
                let moved: T = T::from_usize(index - columns);
                self.elements_indexes[i] = moved;
            }
            i += 1;
        }
        proof {
            self.rows_number.lemma_number_bound();
        }
        self.rows_number = T::from_usize(self.rows_number.into_usize() - 1);
    }

    /// Takes the given column out of the matrix: each index loses one place
    /// for each row above it, and one more where it stands right of the
    /// column.
    pub fn remove_column(&mut self, column: T)
        requires
            old(self).columns_number().number() >= 1,
            old(self).columns_number().number() <= usize::MAX,
            column.number() <= usize::MAX,
            forall|i: int|
                0 <= i < old(self).elements_indexes().len()
                    ==> (#[trigger] old(self).elements_indexes()[i]).number() <= usize::MAX
                    && old(self).elements_indexes()[i].number() / old(self).columns_number().number()
                    + 1
                    <= old(self).elements_indexes()[i].number()
                        + (if old(self).elements_indexes()[i].number() % old(self).columns_number().number()
                    > column.number() {
                    0nat
                } else {
                    1nat
                }),
        ensures
            final(self).columns_number().number() == old(self).columns_number().number() - 1,
            final(self).rows_number() == old(self).rows_number(),
            final(self).elements_values() == old(self).elements_values(),
            final(self).elements_indexes().len() == old(self).elements_indexes().len(),
            forall|i: int|
                0 <= i < old(self).elements_indexes().len()
                    ==> (#[trigger] final(self).elements_indexes()[i]).number()
                    == index_without_column(
                    old(self).elements_indexes()[i].number(),
                    column.number(),
                    old(self).columns_number().number(),
                ),
    {
        let columns: usize = self.columns_number.into_usize();
        let target: usize = column.into_usize();
        let mut i: usize = 0;
        while i < self.elements_indexes.len()
            invariant
                i <= self.elements_indexes.len(),
                self.elements_indexes.len() == old(self).elements_indexes().len(),
                self.rows_number == old(self).rows_number(),
                self.columns_number == old(self).columns_number(),
                self.elements_values@ == old(self).elements_values(),
                columns == old(self).columns_number().number(),
                columns >= 1,
                target == column.number(),
                forall|k: int|
                    i <= k < self.elements_indexes.len()
                        ==> self.elements_indexes@[k] == old(self).elements_indexes()[k],
                forall|k: int|
                    0 <= k < old(self).elements_indexes().len()
                        ==> (#[trigger] old(self).elements_indexes()[k]).number() <= usize::MAX
                        && old(self).elements_indexes()[k].number() / (columns as nat) + 1
                        <= old(self).elements_indexes()[k].number()
                        + (if old(self).elements_indexes()[k].number() % (columns as nat) > target {
                        0nat
                    } else {
                        1nat
                    }),
                forall|k: int|
                    0 <= k < i ==> (#[trigger] self.elements_indexes@[k]).number()
                        == index_without_column(
                        old(self).elements_indexes()[k].number(),
                        column.number(),
                        old(self).columns_number().number(),
                    ),
            decreases self.elements_indexes.len() - i,
        {
            let old_index: T = self.elements_indexes[i];
            assert(old_index == old(self).elements_indexes()[i as int]);
            let index: usize = old_index.into_usize();
            proof {
                old_index.lemma_number_bound();
            }
            let moved: usize = if index % columns > target {
                index - (index / columns + 1)
            } else {
                index - index / columns
            };
            self.elements_indexes[i] = T::from_usize(moved);
            i += 1;
        }
        proof {
            self.columns_number.lemma_number_bound();
        }
        self.columns_number = T::from_usize(columns - 1);
    }
}

impl<T: UIntTrait, V: FloatTrait> NonSymmetricMatrix<T, V> {
    /// What the given row and column read as: the value listed for their
    /// place in a row-by-row listing, or zero. Fails outside the matrix.
    pub fn read_element_value(&self, row: T, column: T) -> (r: Result<V, &'static str>)
        requires
            obeys_arithmetic::<V>(),
            self.rows_number().number() * self.columns_number().number() <= usize::MAX,
            self.rows_number().number() <= usize::MAX,
            self.columns_number().number() <= usize::MAX,
            row.number() <= usize::MAX,
            column.number() <= usize::MAX,
            self.elements_indexes().len() <= self.elements_values().len(),
            forall|i: int|
                0 <= i < self.elements_indexes().len() ==> (#[trigger] self.elements_indexes()[i]).number()
                    <= usize::MAX,
        ensures
            r.is_ok() == (row.number() < self.rows_number().number() && column.number()
                < self.columns_number().number()),
            r matches Err(e) ==> e@ == out_of_size_text(),
            r matches Ok(v) ==> v == (match first_place(
                row.number() * self.columns_number().number() + column.number(),
                numbers(self.elements_indexes()),
                0,
            ) {
                Some(place) => self.elements_values()[place],
                None => zero::<V>(),
            }),
    {
        if let Err(e) = matrix_size_check(row, column, (self.rows_number, self.columns_number)) {
            return Err(e);
        }
        let columns: usize = self.columns_number.into_usize();
        proof {
            assert(row.number() * columns + column.number() < self.rows_number().number()
                * columns) by (nonlinear_arith)
                requires
                    row.number() < self.rows_number().number(),
                    column.number() < columns,
            ;
        }
        let requested: usize = row.into_usize() * columns + column.into_usize();
        Ok(
            copy_value_by_index(
                requested,
                usize_slice(&self.elements_indexes).as_slice(),
                self.elements_values.as_slice(),
            ),
        )
    }

    /// Multiplies every listed value by `number`.
    pub fn multiply_by_number(&mut self, number: V)
        requires
            obeys_arithmetic::<V>(),
        ensures
            final(self).rows_number() == old(self).rows_number(),
            final(self).columns_number() == old(self).columns_number(),
            final(self).elements_indexes() == old(self).elements_indexes(),
            final(self).elements_values() == Seq::new(
                old(self).elements_values().len(),
                |i: int| old(self).elements_values()[i].mul_spec(number),
            ),
    {
        let mut i: usize = 0;
        while i < self.elements_values.len()
            invariant
                obeys_arithmetic::<V>(),
                i <= self.elements_values.len(),
                self.elements_values.len() == old(self).elements_values().len(),
                self.rows_number == old(self).rows_number(),
                self.columns_number == old(self).columns_number(),
                self.elements_indexes@ == old(self).elements_indexes(),
                forall|k: int|
                    0 <= k < i ==> self.elements_values@[k] == old(self).elements_values()[k].mul_spec(
                        number,
                    ),
                forall|k: int|
                    i <= k < self.elements_values.len()
                        ==> self.elements_values@[k] == old(self).elements_values()[k],
            decreases self.elements_values.len() - i,
        {
            let product: V = self.elements_values[i] * number;
            self.elements_values[i] = product;
            i += 1;
        }
        assert(self.elements_values@ =~= Seq::new(
            old(self).elements_values().len(),
            |i: int| old(self).elements_values()[i].mul_spec(number),
        ));
    }
}

/// The indexes as numbers of the machine's word.
pub fn usize_slice<T: UIntTrait>(indexes: &Vec<T>) -> (r: Vec<usize>)
    requires
        forall|i: int| 0 <= i < indexes.len() ==> (#[trigger] indexes@[i]).number() <= usize::MAX,
    ensures
        r.len() == indexes.len(),
        numbers(r@) == numbers(indexes@),
{
    let mut r: Vec<usize> = Vec::new();
    let mut i: usize = 0;
    while i < indexes.len()
        invariant
            i <= indexes.len(),
            r.len() == i,
            forall|i: int|
                0 <= i < indexes.len() ==> (#[trigger] indexes@[i]).number() <= usize::MAX,
            forall|k: int| 0 <= k < i ==> r@[k] == indexes@[k].number(),
        decreases indexes.len() - i,
    {
        r.push(indexes[i].into_usize());
        i += 1;
    }
    assert(numbers(r@) =~= numbers(indexes@));
    r
}

} // verus!
