use vstd::prelude::*;
use crate::position::Position;
use crate::uint_trait::UIntTrait;

verus! {

/// A place in a matrix whose rows and columns are numbered by `T`.
#[derive(Debug, Hash, PartialEq, Eq, Clone, Copy)]
pub struct MatrixElementPosition<T> {
    row: T,
    column: T,
}

impl<T: Copy> MatrixElementPosition<T> {
    pub closed spec fn row(&self) -> T {
        self.row
    }

    pub closed spec fn column(&self) -> T {
        self.column
    }

    pub fn create(row: T, column: T) -> (r: Self)
        ensures
            r.row() == row,
            r.column() == column,
    {
        MatrixElementPosition { row, column }
    }

    pub fn ref_row(&self) -> (r: &T)
        ensures
            *r == self.row(),
    {
        &self.row
    }

    pub fn ref_column(&self) -> (r: &T)
        ensures
            *r == self.column(),
    {
        &self.column
    }

    pub fn swap_row_and_column(&mut self)
        ensures
            final(self).row() == old(self).column(),
            final(self).column() == old(self).row(),
    {
        let interim: T = self.row;
        self.row = self.column;
        self.column = interim;
    }
}

/// Two positions with the same row and the same column are the same
/// position.
pub proof fn lemma_same_row_and_column<T: Copy>(
    first: MatrixElementPosition<T>,
    second: MatrixElementPosition<T>,
)
    requires
        first.row() == second.row(),
        first.column() == second.column(),
    ensures
        first == second,
{
}

impl<T: UIntTrait> MatrixElementPosition<T> {
    /// The place as a pair of numbers.
    pub open spec fn place(&self) -> (nat, nat) {
        (self.row().number(), self.column().number())
    }

    /// The place with the row and the column as `usize`.
    pub fn position(&self) -> (r: Position)
        requires
            self.row().number() <= usize::MAX,
            self.column().number() <= usize::MAX,
        ensures
            r.0 == self.row().number(),
            r.1 == self.column().number(),
    {
        Position(self.row.into_usize(), self.column.into_usize())
    }

    pub fn decrease_row_number(&mut self)
        requires
            1 <= old(self).row().number() <= usize::MAX,
        ensures
            final(self).row().number() == old(self).row().number() - 1,
            final(self).column() == old(self).column(),
    {
        proof {
            self.row.lemma_number_bound();
        }
        self.row = T::from_usize(self.row.into_usize() - 1);
    }

    pub fn decrease_column_number(&mut self)
        requires
            1 <= old(self).column().number() <= usize::MAX,
        ensures
            final(self).column().number() == old(self).column().number() - 1,
            final(self).row() == old(self).row(),
    {
        proof {
            self.column.lemma_number_bound();
        }
        self.column = T::from_usize(self.column.into_usize() - 1);
    }
}

} // verus!
