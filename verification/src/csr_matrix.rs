use vstd::prelude::*;
use vstd::std_specs::ops::{AddSpec, MulSpec};
use vstd::string::StringExecFns;
use crate::basic_operations_trait::BasicOperationsTrait;
use crate::elements::{lists, Elements};
use crate::float_trait::{is_zero, is_zero_value, obeys_arithmetic, zero, zero_value, FloatTrait};
use crate::messages::{decimal, decimal_string};
use crate::position::Position;
use crate::row_order::{apart, ascending, occurs, ordered, precedes};
use crate::square_matrix::SquareMatrix;

verus! {

/// "CsrMatrix::new: row_ptr length must be n_rows + 1"
pub open spec fn row_ptr_length_text() -> Seq<char> {
    "CsrMatrix::new: row_ptr length must be n_rows + 1"@
}

/// "CsrMatrix::new: values and col_index length mismatch"
pub open spec fn length_mismatch_text() -> Seq<char> {
    "CsrMatrix::new: values and col_index length mismatch"@
}

/// "CsrMatrix::new: last row_ptr must equal values.len()"
pub open spec fn last_row_ptr_text() -> Seq<char> {
    "CsrMatrix::new: last row_ptr must equal values.len()"@
}

/// "CsrMatrix::from_square_matrix: matrix is not square"
pub open spec fn not_square_matrix_text() -> Seq<char> {
    "CsrMatrix::from_square_matrix: matrix is not square"@
}

/// "CsrMatrix::spmv: dimension mismatch: A is RxC, x has len N"
pub open spec fn dimension_text(n_rows: nat, n_cols: nat, len: nat) -> Seq<char> {
    "CsrMatrix::spmv: dimension mismatch: A is "@ + decimal(n_rows) + "x"@ + decimal(n_cols)
        + ", x has len "@ + decimal(len)
}

/// The last offset, or zero where there is none.
pub open spec fn last_or_zero(row_ptr: Seq<usize>) -> usize {
    if row_ptr.len() == 0 {
        0
    } else {
        row_ptr[row_ptr.len() - 1]
    }
}

/// Why the arrays do not make a matrix in compressed row form, if they do
/// not.
pub open spec fn create_fault(
    n_rows: usize,
    values_len: nat,
    col_index_len: nat,
    row_ptr: Seq<usize>,
) -> Option<Seq<char>> {
    if row_ptr.len() != n_rows + 1 {
        Some(row_ptr_length_text())
    } else if values_len != col_index_len {
        Some(length_mismatch_text())
    } else if last_or_zero(row_ptr) != values_len {
        Some(last_row_ptr_text())
    } else {
        None
    }
}

/// The stored values of row `row` left of column `upto`, from the left,
/// each with its column.
pub open spec fn row_entries<V>(cells: Map<Position, V>, row: usize, upto: nat) -> Seq<(usize, V)>
    decreases upto,
{
    if upto == 0 {
        Seq::empty()
    } else {
        let earlier = row_entries(cells, row, (upto - 1) as nat);
        let position = Position(row, (upto - 1) as usize);
        if cells.contains_key(position) {
            earlier.push(((upto - 1) as usize, cells[position]))
        } else {
            earlier
        }
    }
}

/// The stored values of the first `rows` rows, row by row, each with its
/// column.
pub open spec fn entries<V>(cells: Map<Position, V>, n_cols: nat, rows: nat) -> Seq<(usize, V)>
    decreases rows,
{
    if rows == 0 {
        Seq::empty()
    } else {
        entries(cells, n_cols, (rows - 1) as nat) + row_entries(
            cells,
            (rows - 1) as usize,
            n_cols,
        )
    }
}

/// The stored values that differ from zero.
pub open spec fn nonzero_part<V: FloatTrait>(cells: Map<Position, V>) -> Map<Position, V> {
    cells.restrict(Set::new(|p: Position| cells.contains_key(p) && !is_zero(cells[p])))
}

/// The sum of `values[idx] * x[col_index[idx]]` over `from <= idx < upto`,
/// taken from the left, starting from zero.
pub open spec fn run_sum<V: FloatTrait>(
    values: Seq<V>,
    col_index: Seq<usize>,
    x: Seq<V>,
    from: int,
    upto: int,
) -> V
    decreases upto - from,
{
    if upto <= from {
        zero::<V>()
    } else {
        run_sum(values, col_index, x, from, upto - 1).add_spec(
            values[upto - 1].mul_spec(x[col_index[upto - 1] as int]),
        )
    }
}

/// The sum of `cells[(row, j)] * x[j]` over the stored columns `j` below
/// `upto`, taken from the left, starting from zero.
pub open spec fn row_product<V: FloatTrait>(
    cells: Map<Position, V>,
    row: usize,
    x: Seq<V>,
    upto: nat,
) -> V
    decreases upto,
{
    if upto == 0 {
        zero::<V>()
    } else {
        let earlier = row_product(cells, row, x, (upto - 1) as nat);
        let position = Position(row, (upto - 1) as usize);
        if cells.contains_key(position) {
            earlier.add_spec(cells[position].mul_spec(x[upto - 1]))
        } else {
            earlier
        }
    }
}

/// The values that the first `upto` triplets add up to, by position: the
/// first triplet of a position gives its value, each later one is added to
/// it.
pub open spec fn summed<V: FloatTrait>(triplets: Seq<(usize, usize, V)>, upto: nat) -> Map<
    Position,
    V,
>
    decreases upto,
{
    if upto == 0 {
        Map::empty()
    } else {
        let earlier = summed(triplets, (upto - 1) as nat);
        let triplet = triplets[upto - 1];
        let position = Position(triplet.0, triplet.1);
        if earlier.contains_key(position) {
            earlier.insert(position, earlier[position].add_spec(triplet.2))
        } else {
            earlier.insert(position, triplet.2)
        }
    }
}

/// The stored values of a row left of some column begin with those left of
/// an earlier column, and each stands in a column left of it.
pub proof fn lemma_row_entries<V>(cells: Map<Position, V>, row: usize, fewer: nat, more: nat)
    requires
        fewer <= more,
    ensures
        row_entries(cells, row, fewer).len() <= row_entries(cells, row, more).len(),
        forall|t: int|
            0 <= t < row_entries(cells, row, fewer).len() ==> row_entries(cells, row, more)[t]
                == row_entries(cells, row, fewer)[t],
        forall|t: int|
            0 <= t < row_entries(cells, row, more).len() ==> (#[trigger] row_entries(
                cells,
                row,
                more,
            )[t]).0 < more,
    decreases more,
{
    if more > 0 {
        if fewer < more {
            lemma_row_entries(cells, row, fewer, (more - 1) as nat);
        } else {
            lemma_row_entries(cells, row, (more - 1) as nat, (more - 1) as nat);
        }
    }
}

/// In a matrix that holds `cells` in compressed row form, row `i` of the
/// product with `x` is the sum of `cells[(i, j)] * x[j]` over the stored
/// columns `j` of that row.
pub proof fn lemma_product_row<V: FloatTrait>(
    matrix: CsrMatrix<V>,
    cells: Map<Position, V>,
    x: Seq<V>,
    i: int,
)
    requires
        matrix.holds(cells, matrix.n_rows(), matrix.n_cols()),
        0 <= i < matrix.n_rows(),
    ensures
        matrix.product_row(x, i) == row_product(cells, i as usize, x, matrix.n_cols() as nat),
{
    let n_cols = matrix.n_cols() as nat;
    let start = entries(cells, n_cols, i as nat).len() as int;
    let listed = entries(cells, n_cols, matrix.n_rows() as nat);
    assert(matrix.row_ptr()[i] == start);
    assert(matrix.row_ptr()[i + 1] == entries(cells, n_cols, (i + 1) as nat).len());
    lemma_entries_grow(cells, n_cols, (i + 1) as nat, matrix.n_rows() as nat);
    assert forall|t: int| 0 <= t < row_entries(cells, i as usize, n_cols).len() implies (
        matrix.col_index()[start + t],
        matrix.values()[start + t],
    ) == #[trigger] row_entries(cells, i as usize, n_cols)[t] by {
        assert(entries(cells, n_cols, (i + 1) as nat)[start + t] == row_entries(
            cells,
            i as usize,
            n_cols,
        )[t]);
        assert(listed[start + t] == entries(cells, n_cols, (i + 1) as nat)[start + t]);
    }
    lemma_run_sum(matrix.values(), matrix.col_index(), cells, i as usize, x, start, n_cols, n_cols);
}

/// The stored values of some rows begin with those of fewer rows.
pub proof fn lemma_entries_grow<V>(cells: Map<Position, V>, n_cols: nat, fewer: nat, more: nat)
    requires
        fewer <= more,
    ensures
        entries(cells, n_cols, fewer).len() <= entries(cells, n_cols, more).len(),
        forall|t: int|
            0 <= t < entries(cells, n_cols, fewer).len() ==> entries(cells, n_cols, more)[t]
                == entries(cells, n_cols, fewer)[t],
    decreases more,
{
    if fewer < more {
        lemma_entries_grow(cells, n_cols, fewer, (more - 1) as nat);
    }
}

/// Where the lists hold from `start` on the stored values of a row, the
/// sum over those left of column `upto` is the row's product up to that
/// column.
pub proof fn lemma_run_sum<V: FloatTrait>(
    values: Seq<V>,
    col_index: Seq<usize>,
    cells: Map<Position, V>,
    row: usize,
    x: Seq<V>,
    start: int,
    n_cols: nat,
    upto: nat,
)
    requires
        upto <= n_cols <= usize::MAX,
        forall|t: int|
            0 <= t < row_entries(cells, row, n_cols).len() ==> (
                col_index[start + t],
                values[start + t],
            ) == #[trigger] row_entries(cells, row, n_cols)[t],
    ensures
        run_sum(values, col_index, x, start, start + row_entries(cells, row, upto).len())
            == row_product(cells, row, x, upto),
    decreases upto,
{
    if upto > 0 {
        lemma_run_sum(values, col_index, cells, row, x, start, n_cols, (upto - 1) as nat);
        lemma_row_entries(cells, row, upto, n_cols);
        let position = Position(row, (upto - 1) as usize);
        if cells.contains_key(position) {
            let t = row_entries(cells, row, (upto - 1) as nat).len() as int;
            assert(row_entries(cells, row, upto).len() == t + 1);
            assert(row_entries(cells, row, upto)[t] == ((upto - 1) as usize, cells[position]));
            assert(row_entries(cells, row, n_cols)[t] == row_entries(cells, row, upto)[t]);
            assert((col_index[start + t], values[start + t]) == row_entries(cells, row, n_cols)[t]);
            assert(run_sum(values, col_index, x, start, start + t + 1) == run_sum(
                values,
                col_index,
                x,
                start,
                start + t,
            ).add_spec(values[start + t].mul_spec(x[col_index[start + t] as int])));
        }
    }
}

/// The sum of `cells[(row, j)] * x[j]` over all columns `j` below `upto`,
/// a position that is not stored taken as zero; taken from the left,
/// starting from zero.
pub open spec fn dense_row_product<V: FloatTrait>(
    cells: Map<Position, V>,
    row: usize,
    x: Seq<V>,
    upto: nat,
) -> V
    decreases upto,
{
    if upto == 0 {
        zero::<V>()
    } else {
        dense_row_product(cells, row, x, (upto - 1) as nat).add_spec(
            crate::basic_operations_trait::value_or_zero(
                cells,
                Position(row, (upto - 1) as usize),
            ).mul_spec(x[upto - 1]),
        )
    }
}

/// Zero compares equal to zero, and adding the product of a zero with
/// anything changes nothing.
pub open spec fn zero_terms_vanish<V: FloatTrait>() -> bool {
    &&& is_zero(zero::<V>())
    &&& forall|sum: V, value: V, factor: V|
        is_zero(value) ==> #[trigger] sum.add_spec(value.mul_spec(factor)) == sum
}

/// Where zero terms vanish, the sum over the stored values other than zero
/// of a row is the sum over all of its columns: the product in compressed
/// row form is the dense product.
pub proof fn lemma_dense_product<V: FloatTrait>(
    cells: Map<Position, V>,
    row: usize,
    x: Seq<V>,
    upto: nat,
)
    requires
        zero_terms_vanish::<V>(),
        upto <= usize::MAX,
    ensures
        row_product(nonzero_part(cells), row, x, upto) == dense_row_product(cells, row, x, upto),
    decreases upto,
{
    if upto > 0 {
        lemma_dense_product(cells, row, x, (upto - 1) as nat);
        let position = Position(row, (upto - 1) as usize);
        let earlier = dense_row_product(cells, row, x, (upto - 1) as nat);
        let value = crate::basic_operations_trait::value_or_zero(cells, position);
        if !nonzero_part(cells).contains_key(position) {
            assert(is_zero(value));
            assert(earlier.add_spec(value.mul_spec(x[upto - 1])) == earlier);
        }
    }
}

/// Where zero terms vanish, row `i` of the product of `x` with a matrix
/// that holds in compressed row form the values of `cells` other than zero
/// is the dense product of that row of `cells` with `x`.
pub proof fn lemma_compressed_product_is_dense<V: FloatTrait>(
    matrix: CsrMatrix<V>,
    cells: Map<Position, V>,
    x: Seq<V>,
    i: int,
)
    requires
        zero_terms_vanish::<V>(),
        matrix.holds(nonzero_part(cells), matrix.n_rows(), matrix.n_cols()),
        0 <= i < matrix.n_rows(),
    ensures
        matrix.product_row(x, i) == dense_row_product(
            cells,
            i as usize,
            x,
            matrix.n_cols() as nat,
        ),
{
    lemma_product_row(matrix, nonzero_part(cells), x, i);
    lemma_dense_product(cells, i as usize, x, matrix.n_cols() as nat);
}

/// One more than the largest column there is: the width that leaves no
/// column out.
pub open spec fn every_column() -> nat {
    usize::MAX as nat + 1
}

/// The number of columns that a listing takes in: all of them where it is
/// wide, else those of the matrix.
pub open spec fn reach(n_cols: usize, wide: bool) -> nat {
    if wide {
        every_column()
    } else {
        n_cols as nat
    }
}

/// A value is stored in a row from `n_rows` on.
pub open spec fn stores_below<V>(cells: Map<Position, V>, n_rows: usize) -> bool {
    exists|p: Position| #[trigger] cells.contains_key(p) && p.0 >= n_rows
}

/// A value is stored in a column from `n_cols` on.
pub open spec fn stores_beside<V>(cells: Map<Position, V>, n_cols: usize) -> bool {
    exists|p: Position| #[trigger] cells.contains_key(p) && p.1 >= n_cols
}

/// The entry is stored in `cells` with its value, inside the given number
/// of rows and left of column `width`.
pub open spec fn inside<V>(
    cells: Map<Position, V>,
    entry: (Position, V),
    n_rows: usize,
    width: nat,
) -> bool {
    &&& entry.0.0 < n_rows
    &&& entry.0.1 < width
    &&& cells.contains_key(entry.0)
    &&& cells[entry.0] == entry.1
}

/// Where an ascending list holds from `start` up to `end` what `cells`
/// stores in a row, and up to `reached` what stands left of column `upto`,
/// that part is the row's stored values left of that column.
pub proof fn lemma_row_listing<V>(
    cells: Map<Position, V>,
    listed: Seq<(Position, V)>,
    row: usize,
    start: int,
    end: int,
    n_cols: nat,
    upto: nat,
    reached: int,
)
    requires
        ascending(listed),
        0 <= start <= reached <= end <= listed.len(),
        upto <= n_cols <= usize::MAX + 1,
        forall|t: int|
            start <= t < end ==> (#[trigger] listed[t]).0.0 == row && cells.contains_key(
                listed[t].0,
            ) && cells[listed[t].0] == listed[t].1,
        forall|c: usize|
            c < n_cols && #[trigger] cells.contains_key(Position(row, c)) ==> exists|t: int|
                start <= t < end && (#[trigger] listed[t]).0 == Position(row, c),
        forall|t: int| start <= t < reached ==> (#[trigger] listed[t]).0.1 < upto,
        forall|t: int| reached <= t < end ==> (#[trigger] listed[t]).0.1 >= upto,
    ensures
        row_entries(cells, row, upto).len() == reached - start,
        forall|t: int|
            0 <= t < reached - start ==> #[trigger] row_entries(cells, row, upto)[t] == (
                listed[start + t].0.1,
                listed[start + t].1,
            ),
    decreases upto,
{
    if upto == 0 {
        if reached > start {
            assert(listed[start].0.1 < upto);
        }
    } else {
        let column = (upto - 1) as usize;
        let position = Position(row, column);
        if cells.contains_key(position) {
            let t = choose|t: int| start <= t < end && (#[trigger] listed[t]).0 == position;
            if t >= reached {
                assert(listed[t].0.1 >= upto);
            }
            if t < reached - 1 {
                assert(precedes(listed[t].0, listed[reached - 1].0));
                assert(listed[reached - 1].0.1 < upto);
            }
            assert(t == reached - 1);
            assert forall|s: int| start <= s < reached - 1 implies (#[trigger] listed[s]).0.1
                < upto - 1 by {
                assert(precedes(listed[s].0, listed[t].0));
            }
            assert forall|s: int| reached - 1 <= s < end implies (#[trigger] listed[s]).0.1 >= upto
                - 1 by {
                if s >= reached {
                    assert(listed[s].0.1 >= upto);
                }
            }
            lemma_row_listing(cells, listed, row, start, end, n_cols, (upto - 1) as nat, reached - 1);
        } else {
            assert forall|s: int| start <= s < reached implies (#[trigger] listed[s]).0.1 < upto
                - 1 by {
                if listed[s].0.1 == upto - 1 {
                    assert(listed[s].0 == position);
                }
            }
            assert forall|s: int| reached <= s < end implies (#[trigger] listed[s]).0.1 >= upto
                - 1 by {
                assert(listed[s].0.1 >= upto);
            }
            lemma_row_listing(cells, listed, row, start, end, n_cols, (upto - 1) as nat, reached);
        }
    }
}

/// A matrix in compressed sparse row form.
#[derive(Clone, Debug)]
pub struct CsrMatrix<V> {
    n_rows: usize,
    n_cols: usize,
    values: Vec<V>,
    col_index: Vec<usize>,
    row_ptr: Vec<usize>,
}

impl<V: FloatTrait> CsrMatrix<V> {
    pub closed spec fn n_rows(&self) -> usize {
        self.n_rows
    }

    pub closed spec fn n_cols(&self) -> usize {
        self.n_cols
    }

    pub closed spec fn values(&self) -> Seq<V> {
        self.values@
    }

    pub closed spec fn col_index(&self) -> Seq<usize> {
        self.col_index@
    }

    pub closed spec fn row_ptr(&self) -> Seq<usize> {
        self.row_ptr@
    }

    /// The arrays fit together: as many offsets as rows and one more, from
    /// zero without a step down to the number of values; as many columns
    /// as values, each inside the matrix.
    pub open spec fn is_valid(&self) -> bool {
        &&& self.row_ptr().len() == self.n_rows() + 1
        &&& self.values().len() == self.col_index().len()
        &&& self.row_ptr()[0] == 0
        &&& self.row_ptr()[self.n_rows() as int] == self.values().len()
        &&& forall|i: int|
            0 <= i < self.n_rows() ==> #[trigger] self.row_ptr()[i] <= self.row_ptr()[i + 1]
        &&& forall|idx: int|
            0 <= idx < self.col_index().len() ==> #[trigger] self.col_index()[idx] < self.n_cols()
    }

    /// The value and column lists are those of `listed`.
    pub open spec fn lists(&self, listed: Seq<(usize, V)>) -> bool {
        &&& self.values().len() == listed.len()
        &&& self.col_index().len() == listed.len()
        &&& forall|idx: int|
            0 <= idx < listed.len() ==> #[trigger] listed[idx] == (
                self.col_index()[idx],
                self.values()[idx],
            )
    }

    /// The matrix of `n_rows` rows and `n_cols` columns holds in
    /// compressed row form what `cells` stores inside these rows and left
    /// of column `width`.
    pub open spec fn holds_within(
        &self,
        cells: Map<Position, V>,
        n_rows: usize,
        n_cols: usize,
        width: nat,
    ) -> bool {
        &&& self.n_rows() == n_rows
        &&& self.n_cols() == n_cols
        &&& self.lists(entries(cells, width, n_rows as nat))
        &&& self.row_ptr().len() == n_rows + 1
        &&& forall|i: int|
            0 <= i <= n_rows ==> #[trigger] self.row_ptr()[i] == entries(cells, width, i as nat).len()
    }

    /// The matrix holds in compressed row form what `cells` stores inside
    /// `n_rows` rows and `n_cols` columns.
    pub open spec fn holds(&self, cells: Map<Position, V>, n_rows: usize, n_cols: usize) -> bool {
        self.holds_within(cells, n_rows, n_cols, n_cols as nat)
    }

    /// Row `i` of the product with `x`.
    pub open spec fn product_row(&self, x: Seq<V>, i: int) -> V {
        run_sum(
            self.values(),
            self.col_index(),
            x,
            self.row_ptr()[i] as int,
            self.row_ptr()[i + 1] as int,
        )
    }

    /// The matrix with the given arrays, where their lengths fit together.
    pub fn create(
        n_rows: usize,
        n_cols: usize,
        values: Vec<V>,
        col_index: Vec<usize>,
        row_ptr: Vec<usize>,
    ) -> (r: Result<Self, String>)
        ensures
            r.is_ok() == create_fault(n_rows, values.len() as nat, col_index.len() as nat, row_ptr@)
                .is_none(),
            r matches Err(e) ==> Some(e@) == create_fault(
                n_rows,
                values.len() as nat,
                col_index.len() as nat,
                row_ptr@,
            ),
            r matches Ok(m) ==> m.n_rows() == n_rows && m.n_cols() == n_cols && m.values()
                == values@ && m.col_index() == col_index@ && m.row_ptr() == row_ptr@,
    {
        if row_ptr.len() == 0 || row_ptr.len() - 1 != n_rows {
            return Err(String::from_str("CsrMatrix::new: row_ptr length must be n_rows + 1"));
        }
        if values.len() != col_index.len() {
            return Err(String::from_str("CsrMatrix::new: values and col_index length mismatch"));
        }
        if row_ptr[row_ptr.len() - 1] != values.len() {
            return Err(String::from_str("CsrMatrix::new: last row_ptr must equal values.len()"));
        }
        Ok(CsrMatrix { n_rows, n_cols, values, col_index, row_ptr })
    }

    pub fn get_n_rows(&self) -> (r: usize)
        ensures
            r == self.n_rows(),
    {
        self.n_rows
    }

    pub fn get_n_cols(&self) -> (r: usize)
        ensures
            r == self.n_cols(),
    {
        self.n_cols
    }

    pub fn get_values(&self) -> (r: &[V])
        ensures
            r@ == self.values(),
    {
        self.values.as_slice()
    }

    pub fn get_col_index(&self) -> (r: &[usize])
        ensures
            r@ == self.col_index(),
    {
        self.col_index.as_slice()
    }

    pub fn get_row_ptr(&self) -> (r: &[usize])
        ensures
            r@ == self.row_ptr(),
    {
        self.row_ptr.as_slice()
    }
    /// Whether the arrays fit together.
    pub fn check(&self) -> (r: bool)
        ensures
            r == self.is_valid(),
    {
        if self.row_ptr.len() == 0 || self.row_ptr.len() - 1 != self.n_rows {
            return false;
        }
        if self.values.len() != self.col_index.len() {
            return false;
        }
        if self.row_ptr[0] != 0 || self.row_ptr[self.n_rows] != self.values.len() {
            return false;
        }
        let mut i: usize = 0;
        while i < self.n_rows
            invariant
                i <= self.n_rows,
                self.row_ptr.len() == self.n_rows + 1,
                forall|r: int| 0 <= r < i ==> #[trigger] self.row_ptr()[r] <= self.row_ptr()[r + 1],
            decreases self.n_rows - i,
        {
            if self.row_ptr[i] > self.row_ptr[i + 1] {
                return false;
            }
            i += 1;
        }
        let mut idx: usize = 0;
        while idx < self.col_index.len()
            invariant
                idx <= self.col_index.len(),
                forall|t: int| 0 <= t < idx ==> #[trigger] self.col_index()[t] < self.n_cols(),
            decreases self.col_index.len() - idx,
        {
            if self.col_index[idx] >= self.n_cols {
                return false;
            }
            idx += 1;
        }
        true
    }

    /// The compressed row form of what `cells` stores inside the given
    /// number of rows and, unless the listing is wide, of columns; zeros
    /// are left out where they are to be skipped. The stored entries are
    /// put in order and walked once.
    fn from_cells(
        cells: &Elements<V>,
        n_rows: usize,
        n_cols: usize,
        wide: bool,
        skip_zeros: bool,
    ) -> (m: Self)
        requires
            obeys_arithmetic::<V>(),
            n_rows < usize::MAX,
        ensures
            m.holds_within(
                if skip_zeros {
                    nonzero_part(cells@)
                } else {
                    cells@
                },
                n_rows,
                n_cols,
                reach(n_cols, wide),
            ),
            !wide ==> m.is_valid(),
    {
        let ghost kept = if skip_zeros {
            nonzero_part(cells@)
        } else {
            cells@
        };
        let ghost width = reach(n_cols, wide);
        let stored = cells.entries();
        let mut picked: Vec<(Position, V)> = Vec::new();
        let mut s: usize = 0;
        while s < stored.len()
            invariant
                width == reach(n_cols, wide),
                obeys_arithmetic::<V>(),
                s <= stored.len(),
                lists(stored@, cells@),
                kept == (if skip_zeros {
                    nonzero_part(cells@)
                } else {
                    cells@
                }),
                picked.len() <= s,
                apart(picked@),
                forall|t: int|
                    0 <= t < picked.len() ==> occurs(stored@, 0, s as int, #[trigger] picked@[t])
                        && inside(kept, picked@[t], n_rows, width),
                forall|k: int|
                    0 <= k < s && inside(kept, #[trigger] stored@[k], n_rows, width) ==> occurs(
                        picked@,
                        0,
                        picked.len() as int,
                        stored@[k],
                    ),
            decreases stored.len() - s,
        {
            let ghost before = picked@;
            let entry = stored[s];
            let taken: bool = entry.0.0 < n_rows && (wide || entry.0.1 < n_cols) && !(skip_zeros
                && is_zero_value(entry.1));
            proof {
                assert(cells@.contains_key(stored@[s as int].0));
                assert(taken == inside(kept, entry, n_rows, width));
            }
            if taken {
                picked.push(entry);
                proof {
                    assert forall|a: int, b: int| 0 <= a < b < picked.len() implies (
                    #[trigger] picked@[a]).0 != (#[trigger] picked@[b]).0 by {
                        assert(picked@[a] == before[a]);
                        if b < before.len() {
                            assert(picked@[b] == before[b]);
                        } else {
                            let k = choose|k: int| 0 <= k < s && #[trigger] stored@[k] == before[a];
                            assert(stored@[k].0 != stored@[s as int].0);
                        }
                    }
                }
            }
            s += 1;
            proof {
                assert forall|t: int| 0 <= t < picked.len() implies occurs(
                    stored@,
                    0,
                    s as int,
                    #[trigger] picked@[t],
                ) && inside(kept, picked@[t], n_rows, width) by {
                    if t < before.len() {
                        assert(picked@[t] == before[t]);
                        let k = choose|k: int| 0 <= k < s - 1 && #[trigger] stored@[k] == before[t];
                        assert(stored@[k] == picked@[t]);
                    } else {
                        assert(stored@[s - 1] == picked@[t]);
                    }
                }
                assert forall|k: int|
                    0 <= k < s && inside(kept, #[trigger] stored@[k], n_rows, width) implies occurs(
                    picked@,
                    0,
                    picked.len() as int,
                    stored@[k],
                ) by {
                    if k < s - 1 {
                        let t = choose|t: int|
                            0 <= t < before.len() && #[trigger] before[t] == stored@[k];
                        assert(picked@[t] == stored@[k]);
                    } else {
                        assert(picked@[picked.len() - 1] == stored@[k]);
                    }
                }
            }
        }
        let sorted = ordered(&picked, 0, picked.len());
        proof {
            assert forall|t: int| 0 <= t < sorted.len() implies inside(
                kept,
                #[trigger] sorted@[t],
                n_rows,
                width,
            ) by {
                let entry = sorted@[t];
                assert(occurs(sorted@, 0, sorted.len() as int, entry));
                assert(occurs(picked@, 0, picked.len() as int, entry));
                let k = choose|k: int| 0 <= k < picked.len() && #[trigger] picked@[k] == entry;
                assert(inside(kept, picked@[k], n_rows, width));
            }
            assert forall|p: Position|
                #[trigger] kept.contains_key(p) && p.0 < n_rows && p.1 < width implies exists|
                t: int,
            |
                0 <= t < sorted.len() && (#[trigger] sorted@[t]).0 == p by {
                assert(cells@.contains_key(p));
                let k = choose|k: int| 0 <= k < stored.len() && (#[trigger] stored@[k]).0 == p;
                let entry = stored@[k];
                assert(inside(kept, entry, n_rows, width));
                assert(occurs(picked@, 0, picked.len() as int, entry));
                assert(occurs(sorted@, 0, sorted.len() as int, entry));
                let t = choose|t: int| 0 <= t < sorted.len() && #[trigger] sorted@[t] == entry;
                assert(sorted@[t].0 == p);
            }
        }
        let mut values: Vec<V> = Vec::new();
        let mut col_index: Vec<usize> = Vec::new();
        let mut row_ptr: Vec<usize> = Vec::new();
        row_ptr.push(0);
        let mut k: usize = 0;
        let mut i: usize = 0;
        while i < n_rows
            invariant
                width == reach(n_cols, wide),
                i <= n_rows < usize::MAX,
                ascending(sorted@),
                forall|t: int|
                    0 <= t < sorted.len() ==> inside(kept, #[trigger] sorted@[t], n_rows, width),
                forall|p: Position|
                    #[trigger] kept.contains_key(p) && p.0 < n_rows && p.1 < width ==> exists|
                        t: int,
                    |
                        0 <= t < sorted.len() && (#[trigger] sorted@[t]).0 == p,
                k <= sorted.len(),
                values.len() == k,
                col_index.len() == k,
                forall|t: int| 0 <= t < k ==> (#[trigger] sorted@[t]).0.0 < i,
                forall|t: int| k <= t < sorted.len() ==> (#[trigger] sorted@[t]).0.0 >= i,
                k == entries(kept, width, i as nat).len(),
                forall|t: int|
                    0 <= t < k ==> #[trigger] entries(kept, width, i as nat)[t] == (
                        col_index@[t],
                        values@[t],
                    ),
                forall|t: int| 0 <= t < col_index.len() ==> #[trigger] col_index@[t] < width,
                row_ptr.len() == i + 1,
                forall|r: int|
                    0 <= r <= i ==> #[trigger] row_ptr@[r] == entries(
                        kept,
                        width,
                        r as nat,
                    ).len(),
            decreases n_rows - i,
        {
            let ghost before = entries(kept, width, i as nat);
            let ghost start = k as int;
            while k < sorted.len() && sorted[k].0.0 == i
                invariant
                    width == reach(n_cols, wide),
                    0 <= start <= k <= sorted.len(),
                    start == before.len(),
                    values.len() == k,
                    col_index.len() == k,
                    forall|t: int|
                        0 <= t < sorted.len() ==> inside(
                            kept,
                            #[trigger] sorted@[t],
                            n_rows,
                            width,
                        ),
                    forall|t: int| start <= t < k ==> (#[trigger] sorted@[t]).0.0 == i,
                    forall|t: int|
                        0 <= t < start ==> #[trigger] before[t] == (col_index@[t], values@[t]),
                    forall|t: int|
                        start <= t < k ==> col_index@[t] == (#[trigger] sorted@[t]).0.1
                            && values@[t] == sorted@[t].1,
                    forall|t: int| 0 <= t < col_index.len() ==> #[trigger] col_index@[t] < width,
                decreases sorted.len() - k,
            {
                let ghost earlier_values = values@;
                let ghost earlier_columns = col_index@;
                let entry = sorted[k];
                values.push(entry.1);
                col_index.push(entry.0.1);
                k += 1;
                proof {
                    assert forall|t: int| start <= t < k implies col_index@[t] == (
                    #[trigger] sorted@[t]).0.1 && values@[t] == sorted@[t].1 by {
                        if t < k - 1 {
                            assert(col_index@[t] == earlier_columns[t]);
                            assert(values@[t] == earlier_values[t]);
                        }
                    }
                }
            }
            proof {
                assert forall|t: int| k <= t < sorted.len() implies (#[trigger] sorted@[t]).0.0
                    > i by {
                    assert(sorted@[k as int].0.0 >= i);
                    if t > k {
                        assert(precedes(sorted@[k as int].0, sorted@[t].0));
                    }
                }
                assert forall|c: usize|
                    c < width && #[trigger] kept.contains_key(Position(i, c)) implies exists|
                    t: int,
                |
                    start <= t < k && (#[trigger] sorted@[t]).0 == Position(i, c) by {
                    let p = Position(i, c);
                    assert(kept.contains_key(p) && p.0 < n_rows && p.1 < width);
                    let t = choose|t: int| 0 <= t < sorted.len() && (#[trigger] sorted@[t]).0 == p;
                    assert(sorted@[t].0.0 == i);
                }
                lemma_row_listing(
                    kept,
                    sorted@,
                    i,
                    start,
                    k as int,
                    width,
                    width,
                    k as int,
                );
            }
            row_ptr.push(values.len());
            i += 1;
            proof {
                let row = row_entries(kept, (i - 1) as usize, width);
                assert(entries(kept, width, i as nat) == before + row);
                assert forall|t: int| 0 <= t < k implies #[trigger] entries(
                    kept,
                    width,
                    i as nat,
                )[t] == (col_index@[t], values@[t]) by {
                    if t >= start {
                        assert(row[t - start] == (sorted@[start + (t - start)].0.1, sorted@[start + (t
                            - start)].1));
                    }
                }
            }
        }
        proof {
            assert forall|r: int| 0 <= r < n_rows implies #[trigger] row_ptr@[r] <= row_ptr@[r
                + 1] by {
                lemma_entries_grow(kept, width, r as nat, (r + 1) as nat);
            }
        }
        CsrMatrix { n_rows, n_cols, values, col_index, row_ptr }
    }

    /// Whether a value other than zero is stored in a row from `n_rows` on,
    /// and whether one is stored in a column from `n_cols` on.
    fn outside(cells: &Elements<V>, n_rows: usize, n_cols: usize) -> (r: (bool, bool))
        requires
            obeys_arithmetic::<V>(),
        ensures
            r.0 == stores_below(nonzero_part(cells@), n_rows),
            r.1 == stores_beside(nonzero_part(cells@), n_cols),
    {
        let ghost kept = nonzero_part(cells@);
        let stored = cells.entries();
        let mut low: bool = false;
        let mut far: bool = false;
        let mut i: usize = 0;
        while i < stored.len()
            invariant
                obeys_arithmetic::<V>(),
                i <= stored.len(),
                lists(stored@, cells@),
                kept == nonzero_part(cells@),
                low ==> stores_below(kept, n_rows),
                far ==> stores_beside(kept, n_cols),
                !low ==> forall|k: int|
                    0 <= k < i && kept.contains_key((#[trigger] stored@[k]).0) ==> stored@[k].0.0
                        < n_rows,
                !far ==> forall|k: int|
                    0 <= k < i && kept.contains_key((#[trigger] stored@[k]).0) ==> stored@[k].0.1
                        < n_cols,
            decreases stored.len() - i,
        {
            let entry = stored[i];
            assert(cells@.contains_key(stored@[i as int].0));
            if !is_zero_value(entry.1) {
                assert(kept.contains_key(entry.0));
                if entry.0.0 >= n_rows {
                    low = true;
                }
                if entry.0.1 >= n_cols {
                    far = true;
                }
            }
            i += 1;
        }
        proof {
            if !low {
                assert forall|p: Position| #[trigger] kept.contains_key(p) implies p.0 < n_rows by {
                    let k = choose|k: int| 0 <= k < stored.len() && (#[trigger] stored@[k]).0 == p;
                    assert(kept.contains_key(stored@[k].0));
                }
            }
            if !far {
                assert forall|p: Position| #[trigger] kept.contains_key(p) implies p.1 < n_cols by {
                    let k = choose|k: int| 0 <= k < stored.len() && (#[trigger] stored@[k]).0 == p;
                    assert(kept.contains_key(stored@[k].0));
                }
            }
        }
        (low, far)
    }

    /// The compressed row form of a square matrix: its stored values other
    /// than zero, row by row and within a row by column. A value stored
    /// right of the matrix is kept with its column, which the form then
    /// lists beyond its own columns. Fails where the matrix is not square,
    /// and where a value other than zero is stored in the row below the
    /// matrix; none is stored further down.
    pub fn from_square_matrix(a: &SquareMatrix<V>) -> (r: Result<Self, String>)
        requires
            obeys_arithmetic::<V>(),
            a.shape().0 < usize::MAX,
            a.shape().0 == a.shape().1 ==> forall|p: Position| #[trigger]
                nonzero_part(a.elements()).contains_key(p) ==> p.0 <= a.shape().0,
        ensures
            a.shape().0 != a.shape().1 ==> (r matches Err(e) && e@ == not_square_matrix_text()),
            a.shape().0 == a.shape().1 ==> (if stores_below(
                nonzero_part(a.elements()),
                a.shape().0,
            ) {
                r matches Err(e) && e@ == last_row_ptr_text()
            } else if stores_beside(nonzero_part(a.elements()), a.shape().1) {
                r matches Ok(m) && m.holds_within(
                    nonzero_part(a.elements()),
                    a.shape().0,
                    a.shape().1,
                    every_column(),
                )
            } else {
                r matches Ok(m) && m.holds(nonzero_part(a.elements()), a.shape().0, a.shape().1)
                    && m.is_valid()
            }),
    {
        let n_rows: usize = a.get_shape().0;
        let n_cols: usize = a.get_shape().1;
        if n_rows != n_cols {
            return Err(String::from_str("CsrMatrix::from_square_matrix: matrix is not square"));
        }
        let found = Self::outside(a.get_elements(), n_rows, n_cols);
        if found.0 {
            return Err(String::from_str("CsrMatrix::new: last row_ptr must equal values.len()"));
        }
        Ok(Self::from_cells(a.get_elements(), n_rows, n_cols, found.1, true))
    }

    /// The compressed row form of a list of triplets of row, column and
    /// value: the values of one position are added up in the order of the
    /// list. Triplets outside the matrix are left out.
    pub fn from_coo(n_rows: usize, n_cols: usize, triplets: &[(usize, usize, V)]) -> (r: Result<
        Self,
        String,
    >)
        requires
            obeys_arithmetic::<V>(),
            n_rows < usize::MAX,
        ensures
            r matches Ok(m) && m.holds(summed(triplets@, triplets@.len()), n_rows, n_cols)
                && m.is_valid(),
    {
        let mut cells: Elements<V> = Elements::new();
        let mut t: usize = 0;
        while t < triplets.len()
            invariant
                obeys_arithmetic::<V>(),
                t <= triplets.len(),
                cells@ == summed(triplets@, t as nat),
            decreases triplets.len() - t,
        {
            let triplet = triplets[t];
            let position = Position(triplet.0, triplet.1);
            let value: V = match cells.get(&position) {
                Some(v) => *v + triplet.2,
                None => triplet.2,
            };
            cells.insert(position, value);
            t += 1;
        }
        Ok(Self::from_cells(&cells, n_rows, n_cols, false, false))
    }

    /// The product of the matrix with the vector `x`. Fails where `x` has
    /// not as many components as the matrix has columns.
    pub fn spmv(&self, x: &[V]) -> (r: Result<Vec<V>, String>)
        requires
            obeys_arithmetic::<V>(),
            self.is_valid(),
        ensures
            r.is_ok() == (x@.len() == self.n_cols()),
            r matches Err(e) ==> e@ == dimension_text(
                self.n_rows() as nat,
                self.n_cols() as nat,
                x@.len(),
            ),
            r matches Ok(y) ==> y.len() == self.n_rows() && forall|i: int|
                0 <= i < self.n_rows() ==> #[trigger] y@[i] == self.product_row(x@, i),
    {
        if x.len() != self.n_cols {
            let mut message: String = String::from_str("CsrMatrix::spmv: dimension mismatch: A is ");
            message.append(decimal_string(self.n_rows).as_str());
            message.append("x");
            message.append(decimal_string(self.n_cols).as_str());
            message.append(", x has len ");
            message.append(decimal_string(x.len()).as_str());
            return Err(message);
        }
        let mut y: Vec<V> = Vec::new();
        let mut i: usize = 0;
        while i < self.n_rows
            invariant
                obeys_arithmetic::<V>(),
                self.is_valid(),
                x@.len() == self.n_cols(),
                i <= self.n_rows,
                y.len() == i,
                forall|r: int| 0 <= r < i ==> #[trigger] y@[r] == self.product_row(x@, r),
            decreases self.n_rows - i,
        {
            let row_start: usize = self.row_ptr[i];
            let row_end: usize = self.row_ptr[i + 1];
            proof {
                self.lemma_offsets(i as int + 1);
            }
            let mut sum: V = zero_value();
            let mut idx: usize = row_start;
            assert(self.row_ptr()[i as int] <= self.row_ptr()[i + 1]);
            while idx < row_end
                invariant
                    obeys_arithmetic::<V>(),
                    self.is_valid(),
                    x@.len() == self.n_cols(),
                    row_start <= idx <= row_end <= self.values().len(),
                    sum == run_sum(
                        self.values(),
                        self.col_index(),
                        x@,
                        row_start as int,
                        idx as int,
                    ),
                decreases row_end - idx,
            {
                let j: usize = self.col_index[idx];
                assert(self.col_index()[idx as int] < self.n_cols());
                sum = sum + self.values[idx] * x[j];
                idx += 1;
            }
            y.push(sum);
            i += 1;
        }
        Ok(y)
    }

    /// No offset exceeds the number of values.
    proof fn lemma_offsets(&self, i: int)
        requires
            self.is_valid(),
            0 <= i <= self.n_rows(),
        ensures
            self.row_ptr()[i] <= self.values().len(),
        decreases self.n_rows() - i,
    {
        if i < self.n_rows() {
            self.lemma_offsets(i + 1);
            assert(self.row_ptr()[i] <= self.row_ptr()[i + 1]);
        }
    }
}

} // verus!
