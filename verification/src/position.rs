use vstd::prelude::*;

verus! {

/// A place in a matrix: row, then column.
#[derive(Debug, Hash, PartialEq, Eq, Clone, Copy, Structural)]
pub struct Position(pub usize, pub usize);

impl Position {
    /// The transposed place.
    pub open spec fn swapped(self) -> Position {
        Position(self.1, self.0)
    }

    pub fn swap_row_and_column(&mut self)
        ensures
            *final(self) == old(self).swapped(),
    {
        let row: usize = self.0;
        self.0 = self.1;
        self.1 = row;
    }
}

} // verus!
