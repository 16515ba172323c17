use vstd::prelude::*;
use crate::elements::{lists, Elements};
use crate::position::Position;

verus! {

/// A way to take the values of a new store from the values of an old one.
#[derive(Debug, Clone, Copy)]
pub enum Rearrangement {
    /// Each position takes the value of its mirror image.
    Transposed,
    /// The given row is left out, and the rows below it move up.
    WithoutRow(usize),
    /// The given column is left out, and the columns right of it move left.
    WithoutColumn(usize),
    /// The given row is left out of a matrix with the given number of
    /// columns, and the rows below it move up; what the row stores right
    /// of the matrix stays where nothing moves onto it.
    WithoutRowOf(usize, usize),
    /// The given column is left out of a matrix with the given number of
    /// rows, and the columns right of it move left; what the column stores
    /// below the matrix stays where nothing moves onto it.
    WithoutColumnOf(usize, usize),
    /// Each position off the diagonal takes the value of its mirror image
    /// where one is stored, and its own value otherwise.
    Unfolded,
    /// Only the positions on and above the diagonal are kept.
    Upper,
}

/// The position itself where it is stored.
pub open spec fn stored_at<V>(elements: Map<Position, V>, position: Position) -> Option<Position> {
    if elements.contains_key(position) {
        Some(position)
    } else {
        None
    }
}

/// The position below.
pub open spec fn below(position: Position) -> Position {
    Position((position.0 + 1) as usize, position.1)
}

/// The position to the right.
pub open spec fn beside(position: Position) -> Position {
    Position(position.0, (position.1 + 1) as usize)
}

/// The stored position from which `position` takes its value under the
/// rearrangement, if it takes one.
pub open spec fn source<V>(
    elements: Map<Position, V>,
    rearrangement: Rearrangement,
    position: Position,
) -> Option<Position> {
    match rearrangement {
        Rearrangement::Transposed => stored_at(elements, position.swapped()),
        Rearrangement::WithoutRow(row) => if position.0 < row {
            stored_at(elements, position)
        } else if position.0 < usize::MAX {
            stored_at(elements, below(position))
        } else {
            None
        },
        Rearrangement::WithoutColumn(column) => if position.1 < column {
            stored_at(elements, position)
        } else if position.1 < usize::MAX {
            stored_at(elements, beside(position))
        } else {
            None
        },
        Rearrangement::WithoutRowOf(row, columns) => if position.0 < row {
            stored_at(elements, position)
        } else if position.0 < usize::MAX && elements.contains_key(below(position)) {
            Some(below(position))
        } else if position.0 == row && position.1 >= columns {
            stored_at(elements, position)
        } else {
            None
        },
        Rearrangement::WithoutColumnOf(column, rows) => if position.1 < column {
            stored_at(elements, position)
        } else if position.1 < usize::MAX && elements.contains_key(beside(position)) {
            Some(beside(position))
        } else if position.1 == column && position.0 >= rows {
            stored_at(elements, position)
        } else {
            None
        },
        Rearrangement::Unfolded => if position.0 != position.1 && elements.contains_key(
            position.swapped(),
        ) {
            Some(position.swapped())
        } else {
            stored_at(elements, position)
        },
        Rearrangement::Upper => if position.0 <= position.1 {
            stored_at(elements, position)
        } else {
            None
        },
    }
}

/// The rearranged store: every position that takes a value holds the value
/// of its source, wherever the two stand.
pub open spec fn rearranged<V>(elements: Map<Position, V>, rearrangement: Rearrangement) -> Map<
    Position,
    V,
> {
    Map::new(
        |p: Position| source(elements, rearrangement, p).is_some(),
        |p: Position| elements[source(elements, rearrangement, p).unwrap()],
    )
}

/// The position is among the first `upto` entries.
pub open spec fn among<V>(entries: Seq<(Position, V)>, upto: int, position: Position) -> bool {
    exists|i: int| 0 <= i < upto && #[trigger] entries[i].0 == position
}

/// The part of the rearranged store whose sources are among the first
/// `upto` entries.
pub open spec fn rearranged_from<V>(
    elements: Map<Position, V>,
    rearrangement: Rearrangement,
    entries: Seq<(Position, V)>,
    upto: int,
) -> Map<Position, V> {
    Map::new(
        |p: Position|
            source(elements, rearrangement, p).is_some() && among(
                entries,
                upto,
                source(elements, rearrangement, p).unwrap(),
            ),
        |p: Position| elements[source(elements, rearrangement, p).unwrap()],
    )
}

/// A position is among one entry more where it is that entry's or among
/// the entries before.
pub proof fn lemma_among_step<V>(entries: Seq<(Position, V)>, upto: int, position: Position)
    requires
        0 <= upto < entries.len(),
    ensures
        among(entries, upto + 1, position) == (among(entries, upto, position) || entries[upto].0
            == position),
{
    if among(entries, upto + 1, position) {
        let i = choose|i: int| 0 <= i < upto + 1 && #[trigger] entries[i].0 == position;
        if i < upto {
            assert(among(entries, upto, position));
        }
    }
    if among(entries, upto, position) {
        let i = choose|i: int| 0 <= i < upto && #[trigger] entries[i].0 == position;
        assert(0 <= i < upto + 1 && entries[i].0 == position);
    }
    if entries[upto].0 == position {
        assert(0 <= upto < upto + 1 && entries[upto].0 == position);
    }
}

/// The positions that take their value from the stored position `from`:
/// there are at most two of them.
fn targets<V: Copy>(elements: &Elements<V>, rearrangement: Rearrangement, from: Position) -> (r: (
    Option<Position>,
    Option<Position>,
))
    requires
        elements@.contains_key(from),
    ensures
        forall|q: Position|
            (r.0 == Some(q) || r.1 == Some(q)) <==> #[trigger] source(elements@, rearrangement, q)
                == Some(from),
{
    let r: (Option<Position>, Option<Position>) = match rearrangement {
        Rearrangement::Transposed => (Some(Position(from.1, from.0)), None),
        Rearrangement::WithoutRow(row) => if from.0 < row {
            (Some(from), None)
        } else if from.0 > row {
            (Some(Position(from.0 - 1, from.1)), None)
        } else {
            (None, None)
        },
        Rearrangement::WithoutColumn(column) => if from.1 < column {
            (Some(from), None)
        } else if from.1 > column {
            (Some(Position(from.0, from.1 - 1)), None)
        } else {
            (None, None)
        },
        Rearrangement::WithoutRowOf(row, columns) => if from.0 < row {
            (Some(from), None)
        } else if from.0 > row {
            (Some(Position(from.0 - 1, from.1)), None)
        } else if from.1 >= columns && !(from.0 < usize::MAX && elements.contains(
            &Position(from.0 + 1, from.1),
        )) {
            (Some(from), None)
        } else {
            (None, None)
        },
        Rearrangement::WithoutColumnOf(column, rows) => if from.1 < column {
            (Some(from), None)
        } else if from.1 > column {
            (Some(Position(from.0, from.1 - 1)), None)
        } else if from.0 >= rows && !(from.1 < usize::MAX && elements.contains(
            &Position(from.0, from.1 + 1),
        )) {
            (Some(from), None)
        } else {
            (None, None)
        },
        Rearrangement::Unfolded => {
            let mirror = Position(from.1, from.0);
            if from.0 == from.1 {
                (Some(from), None)
            } else if elements.contains(&mirror) {
                (Some(mirror), None)
            } else {
                (Some(mirror), Some(from))
            }
        },
        Rearrangement::Upper => if from.0 <= from.1 {
            (Some(from), None)
        } else {
            (None, None)
        },
    };
    r
}

/// Builds the rearranged store, entry by entry.
pub fn rearrange<V: Copy>(elements: &Elements<V>, rearrangement: Rearrangement) -> (r: Elements<V>)
    ensures
        r@ == rearranged(elements@, rearrangement),
{
    let entries = elements.entries();
    let mut result: Elements<V> = Elements::new();
    assert(result@ =~= rearranged_from(elements@, rearrangement, entries@, 0));
    let mut i: usize = 0;
    while i < entries.len()
        invariant
            lists(entries@, elements@),
            i <= entries.len(),
            result@ == rearranged_from(elements@, rearrangement, entries@, i as int),
        decreases entries.len() - i,
    {
        let from: Position = entries[i].0;
        let value: V = entries[i].1;
        let ghost before = result@;
        let found = targets(elements, rearrangement, from);
        if let Some(first) = found.0 {
            result.insert(first, value);
        }
        if let Some(second) = found.1 {
            result.insert(second, value);
        }
        proof {
            assert forall|q: Position|
                rearranged_from(elements@, rearrangement, entries@, i + 1).contains_key(q)
                    == result@.contains_key(q) && (result@.contains_key(q) ==> result@[q]
                    == rearranged_from(elements@, rearrangement, entries@, i + 1)[q]) by {
                let origin = source(elements@, rearrangement, q);
                if origin.is_some() {
                    lemma_among_step(entries@, i as int, origin.unwrap());
                }
            }
        }
        i += 1;
        assert(result@ =~= rearranged_from(elements@, rearrangement, entries@, i as int));
    }
    proof {
        assert forall|q: Position| #[trigger]
            source(elements@, rearrangement, q).is_some() implies among(
            entries@,
            entries@.len() as int,
            source(elements@, rearrangement, q).unwrap(),
        ) by {
            let origin = source(elements@, rearrangement, q).unwrap();
            assert(elements@.contains_key(origin));
        }
        assert(result@ =~= rearranged(elements@, rearrangement));
    }
    result
}

} // verus!
