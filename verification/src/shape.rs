use vstd::prelude::*;
use crate::position::Position;

verus! {

/// The extent of a matrix: number of rows, then number of columns.
#[derive(Debug, PartialEq, Eq, Clone, Copy)]
pub struct Shape<T = usize>(pub T, pub T);

impl<T: Copy> Shape<T> {
    pub fn update(&mut self, rows_number: T, columns_number: T)
        ensures
            *final(self) == Shape(rows_number, columns_number),
    {
        self.0 = rows_number;
        self.1 = columns_number;
    }

    pub fn swap_rows_number_and_columns_number(&mut self)
        ensures
            *final(self) == Shape(old(self).1, old(self).0),
    {
        let rows_number: T = self.0;
        self.0 = self.1;
        self.1 = rows_number;
    }
}

impl Shape {
    /// `position` lies inside a matrix of this shape.
    pub open spec fn holds(self, position: Position) -> bool {
        position.0 < self.0 && position.1 < self.1
    }
}

} // verus!
