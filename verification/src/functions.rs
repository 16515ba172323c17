use vstd::prelude::*;
use vstd::string::StringExecFns;
use crate::basic_matrix::{out_of_size_text, BasicMatrixType};

use crate::elimination::{
    arranged, grid, is_order, lemma_unarranged, lower_solution, lup_decomposed,
    lup_fault, lup_left, lup_pivoted, scales, unarranged, upper_solution, Lup,
};
use crate::extended_matrix::{reading_map, readings, square, stored, ExtendedMatrix};
use crate::float_trait::{is_zero, is_zero_value, less, obeys_arithmetic, zero_value, FloatTrait};
use crate::lup::{decompose_lup, pivot_lup, substitute_lup};
use crate::matrix_element_position::MatrixElementPosition;
use crate::messages::{decimal, decimal_string};
use crate::position::Position;
use crate::try_into_symmetric_compacted_matrix_trait::{
    compact, diagonal_offsets, offsets, packed,
};
use crate::uint_trait::UIntTrait;

verus! {

/// The number that `uint` stands for.
pub fn conversion_uint_into_usize<T: UIntTrait>(uint: T) -> (n: usize)
    requires
        uint.number() <= usize::MAX,
    ensures
        n == uint.number(),
{
    uint.into_usize()
}

/// The value of `T` that stands for `u`.
pub fn conversion_usize_into_uint<T: UIntTrait>(u: usize) -> (n: T)
    requires
        u <= T::limit(),
    ensures
        n.number() == u,
{
    T::from_usize(u)
}

/// Whether the row and the column lie inside a matrix of the given size.
pub fn matrix_size_check<T: UIntTrait>(inputted_row: T, inputted_column: T, matrix_size: (T, T)) -> (r:
    Result<(), &'static str>)
    requires
        inputted_row.number() <= usize::MAX,
        inputted_column.number() <= usize::MAX,
        matrix_size.0.number() <= usize::MAX,
        matrix_size.1.number() <= usize::MAX,
    ensures
        r.is_ok() == (inputted_row.number() < matrix_size.0.number() && inputted_column.number()
            < matrix_size.1.number()),
        r matches Err(e) ==> e@ == out_of_size_text(),
{
    if inputted_row.into_usize() >= matrix_size.0.into_usize() || inputted_column.into_usize()
        >= matrix_size.1.into_usize() {
        return Err("Basic matrix: Inputted indexes are out of matrix size!");
    }
    Ok(())
}

/// The place of the first of `indexes` that equals `requested_index`, if
/// there is one.
pub open spec fn first_place(requested_index: nat, indexes: Seq<nat>, from: int) -> Option<int>
    decreases indexes.len() - from,
{
    if from < 0 || from >= indexes.len() {
        None
    } else if indexes[from] == requested_index {
        Some(from)
    } else {
        first_place(requested_index, indexes, from + 1)
    }
}

/// The numbers that a list of indexes stands for.
pub open spec fn numbers<T: UIntTrait>(indexes: Seq<T>) -> Seq<nat> {
    Seq::new(indexes.len(), |i: int| indexes[i].number())
}

/// The value listed for the requested index: the value at the place of the
/// first index that equals it, or zero where no index does.
pub fn copy_value_by_index<T: UIntTrait, V: FloatTrait>(
    requested_index: T,
    indexes: &[T],
    values: &[V],
) -> (r: V)
    requires
        obeys_arithmetic::<V>(),
        indexes@.len() <= values@.len(),
        requested_index.number() <= usize::MAX,
        forall|i: int| 0 <= i < indexes@.len() ==> (#[trigger] indexes@[i]).number() <= usize::MAX,
    ensures
        r == (match first_place(requested_index.number(), numbers(indexes@), 0) {
            Some(place) => values@[place],
            None => crate::float_trait::zero::<V>(),
        }),
{
    let wanted: usize = requested_index.into_usize();
    let mut i: usize = 0;
    while i < indexes.len()
        invariant
            i <= indexes.len(),
            indexes@.len() <= values@.len(),
            wanted == requested_index.number(),
            forall|i: int|
                0 <= i < indexes@.len() ==> (#[trigger] indexes@[i]).number() <= usize::MAX,
            first_place(requested_index.number(), numbers(indexes@), 0) == first_place(
                requested_index.number(),
                numbers(indexes@),
                i as int,
            ),
        decreases indexes.len() - i,
    {
        if indexes[i].into_usize() == wanted {
            return values[i];
        }
        i += 1;
    }
    zero_value()
}

/// What the given row and column of the matrix read as.
pub fn matrix_element_value_extractor<T: UIntTrait, V: FloatTrait>(
    row: T,
    column: T,
    ref_matrix: &ExtendedMatrix<T, V>,
) -> (r: Result<V, String>)
    requires
        obeys_arithmetic::<V>(),
        ref_matrix.basic().in_range(),
        row.number() <= usize::MAX,
        column.number() <= usize::MAX,
    ensures
        r.is_ok() == ref_matrix.basic().shape().holds(
            Position(row.number() as usize, column.number() as usize),
        ),
        r matches Ok(v) ==> v == ref_matrix.basic().reading(
            Position(row.number() as usize, column.number() as usize),
        ),
        r matches Err(e) ==> e@ == out_of_size_text(),
{
    ref_matrix.copy_element_value_or_zero(MatrixElementPosition::create(row, column))
}

/// "Try to compact matrix action: Diagonal element C, C equals to zero"
pub open spec fn compact_text(column: nat) -> Seq<char> {
    "Try to compact matrix action: Diagonal element "@ + decimal(column) + ", "@ + decimal(column)
        + " equals to zero"@
}

/// What is wrong with the diagonal of the first `columns` columns, if
/// anything: the first of them that has no diagonal inside the matrix, or
/// a zero on it.
pub open spec fn diagonal_fault<T: UIntTrait, V: FloatTrait>(
    matrix: ExtendedMatrix<T, V>,
    columns: nat,
) -> Option<Seq<char>>
    decreases columns,
{
    if columns == 0 {
        None
    } else {
        match diagonal_fault(matrix, (columns - 1) as nat) {
            Some(text) => Some(text),
            None => {
                let column = (columns - 1) as usize;
                if column >= matrix.basic().shape().0 {
                    Some(out_of_size_text())
                } else if is_zero(matrix.basic().reading(Position(column, column))) {
                    Some(compact_text(column as nat))
                } else {
                    None
                }
            },
        }
    }
}

/// Skyline storage of what a symmetric matrix reads as: the columns packed
/// from the diagonal up to the topmost value other than zero, and the
/// offsets of the diagonals. Fails on the first column without a diagonal
/// inside the matrix or with a zero on it.
pub fn try_to_compact_matrix<T: UIntTrait, V: FloatTrait>(
    ref_symmetric_matrix: &ExtendedMatrix<T, V>,
) -> (r: Result<(Vec<V>, Vec<i64>), String>)
    requires
        obeys_arithmetic::<V>(),
        ref_symmetric_matrix.basic().in_range(),
        ref_symmetric_matrix.basic().shape().1 * ref_symmetric_matrix.basic().shape().1
            <= i64::MAX,
    ensures
        r.is_ok() == diagonal_fault(
            *ref_symmetric_matrix,
            ref_symmetric_matrix.basic().shape().1 as nat,
        ).is_none(),
        r matches Err(e) ==> Some(e@) == diagonal_fault(
            *ref_symmetric_matrix,
            ref_symmetric_matrix.basic().shape().1 as nat,
        ),
        r matches Ok((a, maxa)) ==> a@ == packed(
            reading_map(ref_symmetric_matrix.basic()),
            ref_symmetric_matrix.basic().shape().1 as nat,
        ) && offsets(maxa@) == diagonal_offsets(
            reading_map(ref_symmetric_matrix.basic()),
            ref_symmetric_matrix.basic().shape().1 as nat,
        ),
{
    let shape = ref_symmetric_matrix.copy_shape();
    let rows: usize = shape.0.into_usize();
    let columns: usize = shape.1.into_usize();
    let mut column: usize = 0;
    while column < columns
        invariant
            obeys_arithmetic::<V>(),
            ref_symmetric_matrix.basic().in_range(),
            rows == ref_symmetric_matrix.basic().shape().0,
            columns == ref_symmetric_matrix.basic().shape().1,
            column <= columns,
            diagonal_fault(*ref_symmetric_matrix, column as nat).is_none(),
        decreases columns - column,
    {
        if column >= rows {
            proof {
                lemma_diagonal_fault(*ref_symmetric_matrix, (column + 1) as nat, columns as nat);
            }
            return Err(String::from_str("Basic matrix: Inputted indexes are out of matrix size!"));
        }
        if is_zero_value(ref_symmetric_matrix.value_at(column, column)) {
            proof {
                lemma_diagonal_fault(*ref_symmetric_matrix, (column + 1) as nat, columns as nat);
            }
            let mut message: String = String::from_str(
                "Try to compact matrix action: Diagonal element ",
            );
            message.append(decimal_string(column).as_str());
            message.append(", ");
            message.append(decimal_string(column).as_str());
            message.append(" equals to zero");
            return Err(message);
        }
        column += 1;
    }
    let matrix = ref_symmetric_matrix.to_matrix();
    let mut unused: Vec<String> = Vec::new();
    match compact(&matrix, zero_value(), true, &mut unused) {
        Ok(arrays) => Ok(arrays),
        Err(e) => Err(e),
    }
}

/// A fault among some columns is the fault among more columns.
pub proof fn lemma_diagonal_fault<T: UIntTrait, V: FloatTrait>(
    matrix: ExtendedMatrix<T, V>,
    fewer: nat,
    more: nat,
)
    requires
        fewer <= more,
        diagonal_fault(matrix, fewer).is_some(),
    ensures
        diagonal_fault(matrix, more) == diagonal_fault(matrix, fewer),
    decreases more,
{
    if fewer < more {
        lemma_diagonal_fault(matrix, fewer, (more - 1) as nat);
    }
}

/// Finds the pivot row of column `k` among the rows of `a` in the order
/// `o` and brings its number to place `k` of `o`.
pub fn pivot<T: UIntTrait, V: FloatTrait>(
    a: &ExtendedMatrix<T, V>,
    o: &mut Vec<usize>,
    s: &Vec<V>,
    n: usize,
    k: usize,
) -> (r: Result<(), String>)
    requires
        obeys_arithmetic::<V>(),
        a.basic().in_range(),
        n <= a.basic().shape().0,
        n <= a.basic().shape().1,
        is_order(old(o)@, n as nat),
        s.len() == n,
        k < n,
    ensures
        r.is_ok(),
        is_order(final(o)@, n as nat),
        (Lup {
            rows: arranged(readings(a.basic(), n as nat), final(o)@),
            scales: arranged(s@, final(o)@),
            order: final(o)@,
        }) == lup_pivoted(
            Lup {
                rows: arranged(readings(a.basic(), n as nat), old(o)@),
                scales: arranged(s@, old(o)@),
                order: old(o)@,
            },
            k as int,
        ),
{
    let dense = a.dense_readings(n);
    pivot_lup(&dense, o, s, n, k);
    Ok(())
}

/// Decomposes the first `n` rows and columns of `a`, a matrix that keeps
/// both of its triangles, in place with scaled partial pivoting: `o`
/// receives the order of the pivot rows, `s` the scale of each row, and
/// `a` the factors. A new value whose magnitude is not above the tolerance
/// is not written. Fails with the ratio of the pivot to the scale of its
/// row where that ratio is below the tolerance; `a`, `o` and `s` then stay
/// as the work had left them at that pivot.
pub fn decompose<T: UIntTrait, V: FloatTrait>(
    a: &mut ExtendedMatrix<T, V>,
    n: usize,
    tol: V,
    o: &mut Vec<usize>,
    s: &mut Vec<V>,
) -> (r: Result<(), V>)
    requires
        obeys_arithmetic::<V>(),
        old(a).basic().in_range(),
        old(a).basic().kind() == BasicMatrixType::NonSymmetric,
        1 <= n <= old(a).basic().shape().0,
        n <= old(a).basic().shape().1,
        old(o).len() == n,
        old(s).len() == n,
    ensures
        final(a).tolerance() == old(a).tolerance(),
        final(a).basic().rows_number() == old(a).basic().rows_number(),
        final(a).basic().columns_number() == old(a).basic().columns_number(),
        final(a).basic().kind() == old(a).basic().kind(),
        r.is_ok() == lup_decomposed(readings(old(a).basic(), n as nat), tol, Some(tol)).is_some(),
        r matches Err(small) ==> Some(small) == lup_fault(
            readings(old(a).basic(), n as nat),
            tol,
            Some(tol),
        ) && less(small, tol),
        ({
            let left = lup_left(readings(old(a).basic(), n as nat), tol, Some(tol));
            &&& final(o)@ == left.order
            &&& is_order(final(o)@, n as nat)
            &&& final(s).len() == n
            &&& arranged(final(s)@, final(o)@) == left.scales
            &&& final(a).basic().elements() == stored(
                old(a).basic().kind(),
                old(a).basic().elements(),
                unarranged(left.rows, left.order),
                square(n),
                tol,
            )
        }),
{
    let mut dense = a.dense_readings(n);
    let r = decompose_lup(&mut dense, n, tol, o, s, Some(tol));
    proof {
        lemma_unarranged(grid(dense@), o@, n as nat);
    }
    a.store_values(&dense, n, tol);
    r
}

/// Solves the decomposed system for the right-hand side `b`: forward
/// substitution, which leaves its result in `b`, then back substitution
/// into `x`.
pub fn substitute<T: UIntTrait, V: FloatTrait>(
    a: &ExtendedMatrix<T, V>,
    o: &Vec<usize>,
    n: usize,
    b: &mut Vec<V>,
    x: &mut Vec<V>,
) -> (r: Result<(), String>)
    requires
        obeys_arithmetic::<V>(),
        a.basic().in_range(),
        1 <= n <= a.basic().shape().0,
        n <= a.basic().shape().1,
        is_order(o@, n as nat),
        old(b).len() == n,
        old(x).len() == n,
    ensures
        r.is_ok(),
        final(x)@ == upper_solution(
            arranged(readings(a.basic(), n as nat), o@),
            lower_solution(arranged(readings(a.basic(), n as nat), o@), arranged(old(b)@, o@)),
        ),
        arranged(final(b)@, o@) == lower_solution(
            arranged(readings(a.basic(), n as nat), o@),
            arranged(old(b)@, o@),
        ),
        final(b).len() == n,
{
    let dense = a.dense_readings(n);
    substitute_lup(&dense, o, n, b, x);
    Ok(())
}

} // verus!
