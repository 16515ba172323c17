use vstd::prelude::*;
use crate::float_trait::{is_zero, zero, FloatTrait};
use crate::position::Position;
use crate::shape::Shape;

verus! {

/// The place of a position in a row-by-row listing of a matrix with
/// `columns` columns.
pub open spec fn flat_index(columns: int, position: Position) -> int {
    position.0 * columns + position.1
}

/// In a row-by-row listing, an earlier position has the smaller place.
pub proof fn lemma_flat_order(columns: int, p: Position, q: Position)
    requires
        p.1 < columns,
        q.1 < columns,
        p.0 < q.0 || (p.0 == q.0 && p.1 < q.1),
    ensures
        flat_index(columns, p) < flat_index(columns, q),
{
    assert(p.0 < q.0 ==> p.0 * columns + columns <= q.0 * columns) by (nonlinear_arith)
        requires
            columns > 0,
    ;
}

/// Every position of a shape has its place below rows times columns.
pub proof fn lemma_flat_bound(shape: Shape, p: Position)
    requires
        shape.holds(p),
    ensures
        0 <= flat_index(shape.1 as int, p) < shape.0 * shape.1,
{
    assert(p.0 * shape.1 + shape.1 <= shape.0 * shape.1) by (nonlinear_arith)
        requires
            p.0 < shape.0,
            shape.1 > 0,
    ;
    assert(0 <= p.0 * shape.1) by (nonlinear_arith);
}

/// The matrix that a row-by-row listing describes, every position stored:
/// where the listing ends early, the remaining positions hold zero.
pub open spec fn dense_from_flat<V: FloatTrait>(shape: Shape, values: Seq<V>) -> Map<Position, V> {
    Map::new(
        |p: Position| shape.holds(p),
        |p: Position|
            if flat_index(shape.1 as int, p) < values.len() {
                values[flat_index(shape.1 as int, p)]
            } else {
                zero::<V>()
            },
    )
}

/// The matrix that a row-by-row listing describes, zeros left out: a
/// position is stored where the listing reaches it with a value other than
/// zero.
pub open spec fn sparse_from_flat<V: FloatTrait>(shape: Shape, values: Seq<V>) -> Map<
    Position,
    V,
> {
    Map::new(
        |p: Position|
            shape.holds(p) && flat_index(shape.1 as int, p) < values.len() && !is_zero(
                values[flat_index(shape.1 as int, p)],
            ),
        |p: Position| values[flat_index(shape.1 as int, p)],
    )
}

} // verus!
