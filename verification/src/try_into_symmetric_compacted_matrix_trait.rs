use vstd::prelude::*;
use crate::basic_operations_trait::{value_or_zero, BasicOperationsTrait};
use crate::float_trait::{
    is_mismatch, is_zero, is_zero_value, mismatch, obeys_arithmetic, zero, FloatTrait,
};
use crate::messages::{
    mismatch_message, mismatch_text, zero_diagonal_message, zero_diagonal_text,
};
use crate::position::Position;
use crate::square_matrix::SquareMatrix;
use crate::square_matrix_trait::SquareMatrixTrait;

verus! {

/// The first row at or below `row` in which `column` holds a value other
/// than zero; the diagonal's row where there is none above the diagonal.
pub open spec fn skyline_from<V: FloatTrait>(
    elements: Map<Position, V>,
    column: usize,
    row: usize,
) -> usize
    decreases column - row,
{
    if row >= column {
        column
    } else if !is_zero(value_or_zero(elements, Position(row, column))) {
        row
    } else {
        skyline_from(elements, column, (row + 1) as usize)
    }
}

/// The skyline of `column`: its topmost row that holds a value other than
/// zero, or the diagonal's row.
pub open spec fn skyline<V: FloatTrait>(elements: Map<Position, V>, column: usize) -> usize {
    skyline_from(elements, column, 0)
}

/// How many values `column` contributes: from the diagonal up to the
/// skyline.
pub open spec fn run_length<V: FloatTrait>(elements: Map<Position, V>, column: usize) -> nat {
    (column - skyline(elements, column) + 1) as nat
}

/// The values that `column` contributes: the diagonal first, then upwards
/// to the skyline.
pub open spec fn column_run<V: FloatTrait>(elements: Map<Position, V>, column: usize) -> Seq<V> {
    Seq::new(
        run_length(elements, column),
        |t: int| value_or_zero(elements, Position((column - t) as usize, column)),
    )
}

/// The packed values of the first `columns` columns.
pub open spec fn packed<V: FloatTrait>(elements: Map<Position, V>, columns: nat) -> Seq<V>
    decreases columns,
{
    if columns == 0 {
        Seq::empty()
    } else {
        packed(elements, (columns - 1) as nat) + column_run(elements, (columns - 1) as usize)
    }
}

/// For each column the offset of its diagonal among the packed values, and
/// after the last column the number of packed values.
pub open spec fn diagonal_offsets<V: FloatTrait>(
    elements: Map<Position, V>,
    columns: nat,
) -> Seq<int> {
    Seq::new(columns + 1, |column: int| packed(elements, column as nat).len() as int)
}

/// What the first `steps` values of a column's run give rise to: one
/// message for each value that differs from its mirror image by more than
/// the tolerance.
pub open spec fn run_faults<V: FloatTrait>(
    elements: Map<Position, V>,
    column: usize,
    rel_tol: V,
    steps: nat,
) -> Seq<Seq<char>>
    decreases steps,
{
    if steps == 0 {
        Seq::empty()
    } else {
        let row = (column - (steps - 1)) as usize;
        let earlier = run_faults(elements, column, rel_tol, (steps - 1) as nat);
        if mismatch(
            value_or_zero(elements, Position(row, column)),
            value_or_zero(elements, Position(column, row)),
            rel_tol,
        ) {
            earlier.push(mismatch_text(row as nat, column as nat))
        } else {
            earlier
        }
    }
}

/// The message for a zero on the diagonal of `column`, if there is one.
pub open spec fn diagonal_fault<V: FloatTrait>(elements: Map<Position, V>, column: usize) -> Seq<
    Seq<char>,
> {
    if is_zero(value_or_zero(elements, Position(column, column))) {
        seq![zero_diagonal_text(column as nat, column as nat)]
    } else {
        Seq::empty()
    }
}

/// Everything that is wrong with `column`, in the order in which the
/// column is walked: a zero diagonal, then the mismatches of its run.
pub open spec fn column_faults<V: FloatTrait>(
    elements: Map<Position, V>,
    column: usize,
    rel_tol: V,
) -> Seq<Seq<char>> {
    diagonal_fault(elements, column) + run_faults(
        elements,
        column,
        rel_tol,
        run_length(elements, column),
    )
}

/// Everything that is wrong with the first `columns` columns.
pub open spec fn faults<V: FloatTrait>(
    elements: Map<Position, V>,
    rel_tol: V,
    columns: nat,
) -> Seq<Seq<char>>
    decreases columns,
{
    if columns == 0 {
        Seq::empty()
    } else {
        faults(elements, rel_tol, (columns - 1) as nat) + column_faults(
            elements,
            (columns - 1) as usize,
            rel_tol,
        )
    }
}

/// What the packed arrays hold for the place (`row`, `column`) on or above
/// the diagonal: the packed value inside the column's run, zero above it.
pub open spec fn unpacked<V: FloatTrait>(
    values: Seq<V>,
    diag_index: Seq<int>,
    row: usize,
    column: usize,
) -> V {
    if column - row < diag_index[column + 1] - diag_index[column as int] {
        values[diag_index[column as int] + (column - row)]
    } else {
        zero::<V>()
    }
}

/// The offsets as mathematical integers.
pub open spec fn offsets(diag_index: Seq<i64>) -> Seq<int> {
    Seq::new(diag_index.len(), |i: int| diag_index[i] as int)
}

/// The texts of a list of messages.
pub open spec fn texts(messages: Seq<String>) -> Seq<Seq<char>> {
    messages.map_values(|message: String| message@)
}

/// The skyline lies on or above the diagonal, everything above it is zero,
/// and the skyline itself is not, unless it is the diagonal.
pub proof fn lemma_skyline<V: FloatTrait>(elements: Map<Position, V>, column: usize, row: usize)
    requires
        row <= column,
    ensures
        row <= skyline_from(elements, column, row) <= column,
        forall|r: usize|
            row <= r < skyline_from(elements, column, row) ==> is_zero(
                #[trigger] value_or_zero(elements, Position(r, column)),
            ),
        skyline_from(elements, column, row) < column ==> !is_zero(
            value_or_zero(elements, Position(skyline_from(elements, column, row), column)),
        ),
    decreases column - row,
{
    if row < column && is_zero(value_or_zero(elements, Position(row, column))) {
        lemma_skyline(elements, column, (row + 1) as usize);
    }
}

/// The packed values of some columns begin with the packed values of fewer
/// columns.
pub proof fn lemma_packed_grows<V: FloatTrait>(elements: Map<Position, V>, fewer: nat, more: nat)
    requires
        fewer <= more,
    ensures
        packed(elements, fewer).len() <= packed(elements, more).len(),
        packed(elements, more).subrange(0, packed(elements, fewer).len() as int) == packed(
            elements,
            fewer,
        ),
    decreases more,
{
    if fewer < more {
        lemma_packed_grows(elements, fewer, (more - 1) as nat);
        assert(packed(elements, more).subrange(0, packed(elements, fewer).len() as int)
            =~= packed(elements, fewer));
    } else {
        assert(packed(elements, more).subrange(0, packed(elements, fewer).len() as int)
            =~= packed(elements, fewer));
    }
}

/// The faults of a longer walk of a column begin with those of a shorter
/// walk.
pub proof fn lemma_run_faults_grow<V: FloatTrait>(
    elements: Map<Position, V>,
    column: usize,
    rel_tol: V,
    fewer: nat,
    more: nat,
)
    requires
        fewer <= more,
    ensures
        run_faults(elements, column, rel_tol, fewer).len() <= run_faults(
            elements,
            column,
            rel_tol,
            more,
        ).len(),
        forall|i: int|
            0 <= i < run_faults(elements, column, rel_tol, fewer).len() ==> run_faults(
                elements,
                column,
                rel_tol,
                more,
            )[i] == run_faults(elements, column, rel_tol, fewer)[i],
    decreases more,
{
    if fewer < more {
        lemma_run_faults_grow(elements, column, rel_tol, fewer, (more - 1) as nat);
    }
}

/// The faults of more columns begin with the faults of fewer columns.
pub proof fn lemma_faults_grow<V: FloatTrait>(
    elements: Map<Position, V>,
    rel_tol: V,
    fewer: nat,
    more: nat,
)
    requires
        fewer <= more,
    ensures
        faults(elements, rel_tol, fewer).len() <= faults(elements, rel_tol, more).len(),
        forall|i: int|
            0 <= i < faults(elements, rel_tol, fewer).len() ==> faults(elements, rel_tol, more)[i]
                == faults(elements, rel_tol, fewer)[i],
    decreases more,
{
    if fewer < more {
        lemma_faults_grow(elements, rel_tol, fewer, (more - 1) as nat);
    }
}

/// What reading back the packed arrays of a matrix gives: on and above the
/// diagonal every place inside a column's run reads as the matrix does
/// there, and every place above the run reads as zero, where the matrix
/// holds zero too.
pub proof fn lemma_unpacked<V: FloatTrait>(
    elements: Map<Position, V>,
    columns: nat,
    row: usize,
    column: usize,
)
    requires
        row <= column < columns,
    ensures
        row >= skyline(elements, column) ==> unpacked(
            packed(elements, columns),
            diagonal_offsets(elements, columns),
            row,
            column,
        ) == value_or_zero(elements, Position(row, column)),
        row < skyline(elements, column) ==> unpacked(
            packed(elements, columns),
            diagonal_offsets(elements, columns),
            row,
            column,
        ) == zero::<V>() && is_zero(value_or_zero(elements, Position(row, column))),
{
    lemma_skyline(elements, column, 0);
    lemma_packed_grows(elements, (column + 1) as nat, columns);
    let upto = packed(elements, (column + 1) as nat);
    let before = packed(elements, column as nat);
    assert(upto == before + column_run(elements, column));
    if row >= skyline(elements, column) {
        let t = column - row;
        assert(upto[before.len() + t] == column_run(elements, column)[t]);
        assert(packed(elements, columns).subrange(0, upto.len() as int)[before.len() + t]
            == packed(elements, columns)[before.len() + t]);
    }
}

/// Reading back the packed arrays of a matrix that stores no zero gives, on
/// and above the diagonal, exactly what the matrix reads as.
pub proof fn lemma_compaction_round_trip<V: FloatTrait>(
    matrix: SquareMatrix<V>,
    row: usize,
    column: usize,
)
    requires
        matrix.is_sparse(),
        row <= column < matrix.shape().1,
    ensures
        unpacked(
            packed(matrix.elements(), matrix.shape().1 as nat),
            diagonal_offsets(matrix.elements(), matrix.shape().1 as nat),
            row,
            column,
        ) == value_or_zero(matrix.elements(), Position(row, column)),
{
    lemma_unpacked(matrix.elements(), matrix.shape().1 as nat, row, column);
}

fn find_skyline<M>(matrix: &M, column: usize) -> (r: usize) where
    M: BasicOperationsTrait,
    M::Value: FloatTrait,

    requires
        obeys_arithmetic::<M::Value>(),
    ensures
        r == skyline(matrix.elements(), column),
{
    let mut row: usize = 0;
    while row < column
        invariant
            obeys_arithmetic::<M::Value>(),
            row <= column,
            skyline(matrix.elements(), column) == skyline_from(matrix.elements(), column, row),
        decreases column - row,
    {
        let value = matrix.get_element_value_or_zero(&Position(row, column));
        if !is_zero_value(value) {
            return row;
        }
        row += 1;
    }
    row
}

/// Packs the columns of `matrix` from the diagonal up to the skyline. In
/// the forced form every fault is recorded in `warnings` and the packing
/// goes on; otherwise the first fault ends it.
pub fn compact<M>(matrix: &M, rel_tol: M::Value, forced: bool, warnings: &mut Vec<String>) -> (r:
    Result<(Vec<M::Value>, Vec<i64>), String>) where M: BasicOperationsTrait, M::Value: FloatTrait
    requires
        obeys_arithmetic::<M::Value>(),
        matrix.shape().1 * matrix.shape().1 <= i64::MAX,
    ensures
        r matches Ok((values, diag_index)) ==> values@ == packed(
            matrix.elements(),
            matrix.shape().1 as nat,
        ) && offsets(diag_index@) == diagonal_offsets(
            matrix.elements(),
            matrix.shape().1 as nat,
        ),
        forced ==> r.is_ok() && texts(final(warnings)@) == texts(old(warnings)@) + faults(
            matrix.elements(),
            rel_tol,
            matrix.shape().1 as nat,
        ),
        !forced ==> *final(warnings) == *old(warnings) && r.is_ok() == (faults(
            matrix.elements(),
            rel_tol,
            matrix.shape().1 as nat,
        ).len() == 0),
        !forced ==> (r matches Err(e) ==> e@ == faults(
            matrix.elements(),
            rel_tol,
            matrix.shape().1 as nat,
        )[0]),
{
    let n: usize = matrix.get_shape().1;
    let ghost elements = matrix.elements();
    let mut values: Vec<M::Value> = Vec::new();
    let mut diag_index: Vec<i64> = Vec::new();
    let mut column: usize = 0;
    while column < n
        invariant
            obeys_arithmetic::<M::Value>(),
            elements == matrix.elements(),
            n == matrix.shape().1,
            n * n <= i64::MAX,
            column <= n,
            values@ == packed(elements, column as nat),
            values.len() <= column * n,
            offsets(diag_index@) == Seq::new(
                column as nat,
                |c: int| packed(elements, c as nat).len() as int,
            ),
            forced ==> texts(warnings@) == texts(old(warnings)@) + faults(
                elements,
                rel_tol,
                column as nat,
            ),
            !forced ==> *warnings == *old(warnings) && faults(elements, rel_tol, column as nat).len()
                == 0,
        decreases n - column,
    {
        proof {
            lemma_skyline(elements, column, 0);
            assert(column * n + n <= n * n) by (nonlinear_arith)
                requires
                    column < n,
            ;
        }
        let diagonal = matrix.get_element_value_or_zero(&Position(column, column));
        if is_zero_value(diagonal) {
            let message = zero_diagonal_message(column, column);
            if forced {
                let ghost before = warnings@;
                warnings.push(message);
                assert(texts(warnings@) =~= texts(before).push(message@));
            } else {
                proof {
                    lemma_faults_grow(elements, rel_tol, (column + 1) as nat, n as nat);
                    let whole = column_faults(elements, column, rel_tol);
                    assert(whole.len() >= 1 && whole[0] == message@);
                    let so_far = faults(elements, rel_tol, (column + 1) as nat);
                    assert(so_far.len() >= 1 && so_far[0] == message@);
                }
                return Err(message);
            }
        }
        let top: usize = find_skyline(matrix, column);
        let ghost start = values@;
        let ghost listed = if forced {
            texts(old(warnings)@) + faults(elements, rel_tol, column as nat) + diagonal_fault(
                elements,
                column,
            )
        } else {
            Seq::empty()
        };
        assert(forced ==> texts(warnings@) =~= listed);
        let ghost earlier = diag_index@;
        assert(values.len() <= i64::MAX);
        let offset: i64 = values.len() as i64;
        diag_index.push(offset);
        assert(diag_index@ == earlier.push(offset));
        assert(offsets(earlier).len() == column);
        assert forall|c: int| 0 <= c <= column implies offsets(diag_index@)[c] == packed(
            elements,
            c as nat,
        ).len() by {
            if c < column {
                assert(offsets(earlier)[c] == packed(elements, c as nat).len());
            }
        }
        assert(offsets(diag_index@) =~= Seq::new(
            (column + 1) as nat,
            |c: int| packed(elements, c as nat).len() as int,
        ));
        let mut steps: usize = 0;
        while steps <= column - top
            invariant
                obeys_arithmetic::<M::Value>(),
                elements == matrix.elements(),
                n == matrix.shape().1,
                top == skyline(elements, column),
                top <= column < n,
                steps <= column - top + 1,
                start.len() <= column * n,
                column * n + n <= n * n <= i64::MAX,
                values@ == start + Seq::new(
                    steps as nat,
                    |t: int| value_or_zero(elements, Position((column - t) as usize, column)),
                ),
                forced ==> texts(warnings@) == listed + run_faults(
                    elements,
                    column,
                    rel_tol,
                    steps as nat,
                ),
                !forced ==> *warnings == *old(warnings) && run_faults(
                    elements,
                    column,
                    rel_tol,
                    steps as nat,
                ).len() == 0,
                !forced ==> faults(elements, rel_tol, column as nat).len() == 0
                    && diagonal_fault(elements, column).len() == 0,
                offsets(diag_index@) == Seq::new(
                    (column + 1) as nat,
                    |c: int| packed(elements, c as nat).len() as int,
                ),
            decreases column - top + 1 - steps,
        {
            let row: usize = column - steps;
            let value = matrix.get_element_value_or_zero(&Position(row, column));
            let mirror = matrix.get_element_value_or_zero(&Position(column, row));
            if is_mismatch(value, mirror, rel_tol) {
                let message = mismatch_message(row, column);
                if forced {
                    let ghost before = warnings@;
                    warnings.push(message);
                    assert(texts(warnings@) =~= texts(before).push(message@));
                } else {
                    proof {
                        let total = run_length(elements, column);
                        lemma_run_faults_grow(
                            elements,
                            column,
                            rel_tol,
                            (steps + 1) as nat,
                            total,
                        );
                        let walked = run_faults(elements, column, rel_tol, (steps + 1) as nat);
                        assert(walked.len() == 1 && walked[0] == message@);
                        let whole = column_faults(elements, column, rel_tol);
                        assert(whole.len() >= 1 && whole[0] == message@);
                        lemma_faults_grow(elements, rel_tol, (column + 1) as nat, n as nat);
                        let so_far = faults(elements, rel_tol, (column + 1) as nat);
                        assert(so_far.len() >= 1 && so_far[0] == message@);
                    }
                    return Err(message);
                }
            }
            let ghost before = values@;
            values.push(value);
            steps += 1;
            assert(values@ =~= start + Seq::new(
                steps as nat,
                |t: int| value_or_zero(elements, Position((column - t) as usize, column)),
            ));
            assert(forced ==> texts(warnings@) =~= listed + run_faults(
                elements,
                column,
                rel_tol,
                steps as nat,
            ));
        }
        assert(values@ =~= packed(elements, (column + 1) as nat));
        assert(forced ==> texts(warnings@) =~= texts(old(warnings)@) + faults(
            elements,
            rel_tol,
            (column + 1) as nat,
        ));
        column += 1;
        assert(values.len() <= column * n) by (nonlinear_arith)
            requires
                values.len() <= (column - 1) * n + n,
        ;
    }
    let ghost earlier = diag_index@;
    assert(values.len() <= i64::MAX) by (nonlinear_arith)
        requires
            values.len() <= column * n,
            column <= n,
            n * n <= i64::MAX,
    ;
    let offset: i64 = values.len() as i64;
    diag_index.push(offset);
    assert(offsets(earlier).len() == column);
    assert forall|c: int| 0 <= c <= column implies offsets(diag_index@)[c] == packed(
        elements,
        c as nat,
    ).len() by {
        if c < column {
            assert(offsets(earlier)[c] == packed(elements, c as nat).len());
        }
    }
    assert(offsets(diag_index@) =~= diagonal_offsets(
        elements,
        n as nat,
    ));
    Ok((values, diag_index))
}

/// Skyline storage of a symmetric matrix: the columns packed from the
/// diagonal up to the topmost value other than zero, and the offsets of the
/// diagonals among the packed values.
pub trait TryIntoSymmetricCompactedMatrixTrait: SquareMatrixTrait {
    /// Packs the matrix. Fails on the first zero on the diagonal and on the
    /// first packed value that differs from its mirror image by more than
    /// `rel_tol`, columns taken from the left and each column from the
    /// diagonal upwards.
    fn try_into_symmetric_compacted_matrix(&self, rel_tol: Self::Value) -> (r: Result<
        (Vec<Self::Value>, Vec<i64>),
        String,
    >) where Self::Value: FloatTrait
        requires
            obeys_arithmetic::<Self::Value>(),
            self.shape().1 * self.shape().1 <= i64::MAX,
        ensures
            r.is_ok() == (faults(self.elements(), rel_tol, self.shape().1 as nat).len() == 0),
            r matches Ok((values, diag_index)) ==> values@ == packed(
                self.elements(),
                self.shape().1 as nat,
            ) && offsets(diag_index@) == diagonal_offsets(
                self.elements(),
                self.shape().1 as nat,
            ),
            r matches Err(e) ==> e@ == faults(self.elements(), rel_tol, self.shape().1 as nat)[0],
    {
        let mut unused: Vec<String> = Vec::new();
        compact(self, rel_tol, false, &mut unused)
    }

    /// Packs the matrix whatever it holds, and appends to `warnings` one
    /// message for each zero on the diagonal and each packed value that
    /// differs from its mirror image by more than `rel_tol`.
    fn forced_into_symmetric_compacted_matrix(
        &self,
        rel_tol: Self::Value,
        warnings: &mut Vec<String>,
    ) -> (r: (Vec<Self::Value>, Vec<i64>)) where Self::Value: FloatTrait
        requires
            obeys_arithmetic::<Self::Value>(),
            self.shape().1 * self.shape().1 <= i64::MAX,
        ensures
            r.0@ == packed(self.elements(), self.shape().1 as nat),
            offsets(r.1@) == diagonal_offsets(
                self.elements(),
                self.shape().1 as nat,
            ),
            texts(final(warnings)@) == texts(old(warnings)@) + faults(
                self.elements(),
                rel_tol,
                self.shape().1 as nat,
            ),
    {
        match compact(self, rel_tol, true, warnings) {
            Ok(r) => r,
            Err(_) => (Vec::new(), Vec::new()),
        }
    }
}

impl<V> TryIntoSymmetricCompactedMatrixTrait for SquareMatrix<V> {

}

} // verus!
