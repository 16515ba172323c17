use vstd::prelude::*;
use vstd::set_lib::{lemma_int_range, lemma_map_size, lemma_subset_equality, set_int_range};
use vstd::std_specs::ops::{AddSpec, DivSpec, MulSpec, NegSpec, SubSpec};
use crate::float_trait::{greater, is_nan, less, magnitude, one, written, zero, FloatTrait};

verus! {

/// `rows` are `n` rows of `n` values each.
pub open spec fn is_square<V>(rows: Seq<Seq<V>>, n: nat) -> bool {
    &&& rows.len() == n
    &&& forall|i: int| 0 <= i < n ==> (#[trigger] rows[i]).len() == n
}

/// The rows of a matrix held as a vector of vectors.
pub open spec fn grid<V>(rows: Seq<Vec<V>>) -> Seq<Seq<V>> {
    Seq::new(rows.len(), |i: int| rows[i]@)
}

/// The sequence with the values at `i` and `j` exchanged.
pub open spec fn exchanged<T>(s: Seq<T>, i: int, j: int) -> Seq<T> {
    s.update(i, s[j]).update(j, s[i])
}

/// The largest magnitude among the first `upto` values of `row`: the
/// magnitude of the first value, replaced in turn by each later magnitude
/// that is greater.
pub open spec fn row_scale_upto<V: FloatTrait>(row: Seq<V>, upto: nat) -> V
    decreases upto,
{
    if upto <= 1 {
        magnitude(row[0])
    } else {
        let earlier = row_scale_upto(row, (upto - 1) as nat);
        if greater(magnitude(row[upto - 1]), earlier) {
            magnitude(row[upto - 1])
        } else {
            earlier
        }
    }
}

/// The scale of each row: the largest magnitude in it.
pub open spec fn scales<V: FloatTrait>(rows: Seq<Seq<V>>) -> Seq<V> {
    Seq::new(rows.len(), |i: int| row_scale_upto(rows[i], rows[i].len()))
}

/// `|rows[i][k] / scales[i]|`: the scaled size of the candidate pivot in
/// row `i`.
pub open spec fn ratio<V: FloatTrait>(rows: Seq<Seq<V>>, scales: Seq<V>, i: int, k: int) -> V {
    magnitude(rows[i][k].div_spec(scales[i]))
}

/// The pivot row for column `k` among the rows `k..upto`: row `k`,
/// replaced in turn by each later row whose ratio is greater.
pub open spec fn pivot_upto<V: FloatTrait>(
    rows: Seq<Seq<V>>,
    scales: Seq<V>,
    k: int,
    upto: int,
) -> int
    decreases upto - k,
{
    if upto <= k + 1 {
        k
    } else {
        let earlier = pivot_upto(rows, scales, k, upto - 1);
        if greater(ratio(rows, scales, upto - 1, k), ratio(rows, scales, earlier, k)) {
            upto - 1
        } else {
            earlier
        }
    }
}

/// The pivot row for column `k`: the row at or below `k` with the greatest
/// ratio, the topmost of them.
pub open spec fn pivot_row<V: FloatTrait>(rows: Seq<Seq<V>>, scales: Seq<V>, k: int) -> int {
    pivot_upto(rows, scales, k, rows.len() as int)
}

/// The pivot of column `k` is too small against its row's scale.
pub open spec fn ill_conditioned<V: FloatTrait>(
    rows: Seq<Seq<V>>,
    scales: Seq<V>,
    k: int,
    rel_tol: V,
) -> bool {
    less(ratio(rows, scales, k, k), rel_tol)
}

/// The factor by which the pivot row is taken off `row`.
pub open spec fn factor<V: FloatTrait>(row: Seq<V>, pivot: Seq<V>, k: int) -> V {
    row[k].div_spec(pivot[k])
}

/// `row` after the pivot row of column `k` was taken off it: right of
/// column `k` each value less the factor times the pivot row's value, and
/// in column `k` the factor itself where it is kept. With a threshold, a
/// new value whose magnitude is not above it leaves the old value in
/// place.
pub open spec fn reduced_row<V: FloatTrait>(
    row: Seq<V>,
    pivot: Seq<V>,
    k: int,
    keep_factor: bool,
    threshold: Option<V>,
) -> Seq<V> {
    Seq::new(
        row.len(),
        |j: int|
            if j > k {
                written(
                    row[j],
                    row[j].sub_spec(factor(row, pivot, k).mul_spec(pivot[j])),
                    threshold,
                )
            } else if j == k && keep_factor {
                written(row[j], factor(row, pivot, k), threshold)
            } else {
                row[j]
            },
    )
}

/// The rows after column `k` was eliminated below the pivot row `k`.
pub open spec fn eliminated<V: FloatTrait>(
    rows: Seq<Seq<V>>,
    k: int,
    keep_factor: bool,
    threshold: Option<V>,
) -> Seq<Seq<V>> {
    Seq::new(
        rows.len(),
        |i: int|
            if i > k {
                reduced_row(rows[i], rows[k], k, keep_factor, threshold)
            } else {
                rows[i]
            },
    )
}

/// The right-hand side after column `k` was eliminated.
pub open spec fn eliminated_rhs<V: FloatTrait>(rows: Seq<Seq<V>>, rhs: Seq<V>, k: int) -> Seq<V> {
    Seq::new(
        rhs.len(),
        |i: int|
            if i > k {
                rhs[i].sub_spec(factor(rows[i], rows[k], k).mul_spec(rhs[k]))
            } else {
                rhs[i]
            },
    )
}

/// A system under Gaussian elimination: the rows, the right-hand side, the
/// scale of each row, and the number of row exchanges made so far.
pub struct Gep<V> {
    pub rows: Seq<Seq<V>>,
    pub rhs: Seq<V>,
    pub scales: Seq<V>,
    pub swaps: nat,
}

/// The system with the pivot row of column `k` brought to row `k`.
pub open spec fn gep_pivoted<V: FloatTrait>(system: Gep<V>, k: int) -> Gep<V> {
    let p = pivot_row(system.rows, system.scales, k);
    Gep {
        rows: exchanged(system.rows, p, k),
        rhs: exchanged(system.rhs, p, k),
        scales: exchanged(system.scales, p, k),
        swaps: if p != k {
            system.swaps + 1
        } else {
            system.swaps
        },
    }
}

/// The system with column `k` eliminated below row `k`.
pub open spec fn gep_eliminated<V: FloatTrait>(system: Gep<V>, k: int) -> Gep<V> {
    Gep {
        rows: eliminated(system.rows, k, false, None),
        rhs: eliminated_rhs(system.rows, system.rhs, k),
        scales: system.scales,
        swaps: system.swaps,
    }
}

/// The system after the first `steps` columns were pivoted and eliminated;
/// nothing where one of their pivots was too small.
pub open spec fn gep_forward<V: FloatTrait>(system: Gep<V>, rel_tol: V, steps: nat) -> Option<
    Gep<V>,
>
    decreases steps,
{
    if steps == 0 {
        Some(system)
    } else {
        match gep_forward(system, rel_tol, (steps - 1) as nat) {
            None => None,
            Some(earlier) => {
                let pivoted = gep_pivoted(earlier, steps - 1);
                if ill_conditioned(pivoted.rows, pivoted.scales, steps - 1, rel_tol) {
                    None
                } else {
                    Some(gep_eliminated(pivoted, steps - 1))
                }
            },
        }
    }
}

/// The system as the work on the first `steps` columns leaves it: after
/// these columns or, where one of their pivots was too small, with the row
/// of the first such pivot brought to its place and nothing below it
/// eliminated.
pub open spec fn gep_halted<V: FloatTrait>(system: Gep<V>, rel_tol: V, steps: nat) -> Gep<V>
    decreases steps,
{
    if steps == 0 {
        system
    } else {
        match gep_forward(system, rel_tol, (steps - 1) as nat) {
            None => gep_halted(system, rel_tol, (steps - 1) as nat),
            Some(earlier) => {
                let pivoted = gep_pivoted(earlier, steps - 1);
                if ill_conditioned(pivoted.rows, pivoted.scales, steps - 1, rel_tol) {
                    pivoted
                } else {
                    gep_eliminated(pivoted, steps - 1)
                }
            },
        }
    }
}

/// The system as the elimination leaves it, whether it ends well or at a
/// pivot that was too small.
pub open spec fn gep_left<V: FloatTrait>(system: Gep<V>, rel_tol: V) -> Gep<V> {
    gep_halted(system, rel_tol, (system.rows.len() - 1) as nat)
}

/// The system brought to upper triangular form by scaled partial pivoting;
/// nothing where a pivot, the last diagonal value included, was too small.
pub open spec fn gep_reduced<V: FloatTrait>(system: Gep<V>, rel_tol: V) -> Option<Gep<V>> {
    let n = system.rows.len();
    match gep_forward(system, rel_tol, (n - 1) as nat) {
        None => None,
        Some(reduced) => if ill_conditioned(reduced.rows, reduced.scales, n - 1, rel_tol) {
            None
        } else {
            Some(reduced)
        },
    }
}

/// The sum of `rows[i][j] * x[j]` over the columns `i + 1 .. upto`, taken
/// from the left, where `x` solves the upper triangular system.
pub open spec fn upper_sum<V: FloatTrait>(rows: Seq<Seq<V>>, rhs: Seq<V>, i: int, upto: int) -> V
    decreases rows.len() - i, upto,
{
    if i < 0 || upto <= i + 1 || upto > rows.len() {
        zero::<V>()
    } else {
        upper_sum(rows, rhs, i, upto - 1).add_spec(
            rows[i][upto - 1].mul_spec(upper_x(rows, rhs, upto - 1)),
        )
    }
}

/// The unknown `i` of the upper triangular system `rows * x = rhs`, found
/// by back substitution from the last row.
pub open spec fn upper_x<V: FloatTrait>(rows: Seq<Seq<V>>, rhs: Seq<V>, i: int) -> V
    decreases rows.len() - i, rows.len() + 1,
{
    if i < 0 || i >= rows.len() {
        zero::<V>()
    } else if i == rows.len() - 1 {
        rhs[i].div_spec(rows[i][i])
    } else {
        rhs[i].sub_spec(upper_sum(rows, rhs, i, rows.len() as int)).div_spec(rows[i][i])
    }
}

/// The solution of the upper triangular system `rows * x = rhs`.
pub open spec fn upper_solution<V: FloatTrait>(rows: Seq<Seq<V>>, rhs: Seq<V>) -> Seq<V> {
    Seq::new(rows.len(), |i: int| upper_x(rows, rhs, i))
}

/// The solution of `rows * x = rhs` by Gaussian elimination with scaled
/// partial pivoting; nothing where the system is ill conditioned.
pub open spec fn gep_solution<V: FloatTrait>(rows: Seq<Seq<V>>, rhs: Seq<V>, rel_tol: V) -> Option<
    Seq<V>,
> {
    match gep_reduced(Gep { rows, rhs, scales: scales(rows), swaps: 0 }, rel_tol) {
        None => None,
        Some(reduced) => Some(upper_solution(reduced.rows, reduced.rhs)),
    }
}

/// The product of the first `upto` diagonal values, taken from the top,
/// starting from one.
pub open spec fn diagonal_product<V: FloatTrait>(rows: Seq<Seq<V>>, upto: nat) -> V
    decreases upto,
{
    if upto == 0 {
        one::<V>()
    } else {
        diagonal_product(rows, (upto - 1) as nat).mul_spec(rows[upto - 1][upto - 1])
    }
}

/// One for an even number of row exchanges, minus one for an odd number.
pub open spec fn sign<V: FloatTrait>(swaps: nat) -> V {
    if swaps % 2 == 0 {
        one::<V>()
    } else {
        one::<V>().neg_spec()
    }
}

/// The determinant by Gaussian elimination with scaled partial pivoting:
/// the product of the diagonal of the reduced rows, times the sign of the
/// row exchanges; zero where the matrix is ill conditioned or the product
/// is not a number.
pub open spec fn gep_determinant<V: FloatTrait>(rows: Seq<Seq<V>>, rel_tol: V) -> V {
    let rhs = Seq::new(rows.len(), |i: int| zero::<V>());
    match gep_reduced(Gep { rows, rhs, scales: scales(rows), swaps: 0 }, rel_tol) {
        None => zero::<V>(),
        Some(reduced) => {
            let product = diagonal_product(reduced.rows, rows.len()).mul_spec(
                sign::<V>(reduced.swaps),
            );
            if is_nan(product) {
                zero::<V>()
            } else {
                product
            }
        },
    }
}

/// `order` lists the numbers below `n`, each once.
pub open spec fn is_order(order: Seq<usize>, n: nat) -> bool {
    &&& order.len() == n
    &&& forall|i: int| 0 <= i < n ==> #[trigger] order[i] < n
    &&& forall|i: int, j: int| 0 <= i < j < n ==> #[trigger] order[i] != #[trigger] order[j]
}

/// The items in the given order: item `order[i]` at place `i`.
pub open spec fn arranged<T>(items: Seq<T>, order: Seq<usize>) -> Seq<T> {
    Seq::new(order.len(), |i: int| items[order[i] as int])
}

/// The place at which the order lists the row `row`.
pub open spec fn place_in(order: Seq<usize>, row: int) -> int {
    choose|i: int| 0 <= i < order.len() && order[i] == row
}

/// The items taken back out of the given order: the item at the place of
/// `row` stands at `row`.
pub open spec fn unarranged<T>(items: Seq<T>, order: Seq<usize>) -> Seq<T> {
    Seq::new(order.len(), |row: int| items[place_in(order, row)])
}

/// An order lists every number below its length.
pub proof fn lemma_order_is_onto(order: Seq<usize>, n: nat, row: int)
    requires
        is_order(order, n),
        0 <= row < n,
    ensures
        0 <= place_in(order, row) < n,
        order[place_in(order, row)] == row,
{
    let places = set_int_range(0, n as int);
    let at = |i: int| order[i] as int;
    let listed = places.map(at);
    lemma_int_range(0, n as int);
    assert(vstd::relations::injective_on(at, places)) by {
        assert forall|i: int, j: int|
            places.contains(i) && places.contains(j) && #[trigger] at(i) == #[trigger] at(
                j,
            ) implies i == j by {
            if i < j {
                assert(order[i] != order[j]);
            } else if j < i {
                assert(order[j] != order[i]);
            }
        }
    }
    lemma_map_size(places, listed, at);
    assert(listed.subset_of(places)) by {
        assert forall|r: int| listed.contains(r) implies places.contains(r) by {
            let i = choose|i: int| places.contains(i) && at(i) == r;
            assert(order[i] < n);
        }
    }
    lemma_subset_equality(listed, places);
    assert(listed.contains(row));
    let i = choose|i: int| places.contains(i) && at(i) == row;
    assert(0 <= i < order.len() && order[i] == row);
}

/// Taking items out of an order into which they were brought gives the
/// items back.
pub proof fn lemma_unarranged<T>(items: Seq<T>, order: Seq<usize>, n: nat)
    requires
        is_order(order, n),
        items.len() == n,
    ensures
        unarranged(arranged(items, order), order) == items,
{
    assert forall|row: int| 0 <= row < n implies unarranged(arranged(items, order), order)[row]
        == items[row] by {
        lemma_order_is_onto(order, n, row);
    }
    assert(unarranged(arranged(items, order), order) =~= items);
}

/// The numbers below `n` in their natural order.
pub open spec fn natural_order(n: nat) -> Seq<usize> {
    Seq::new(n, |i: int| i as usize)
}

/// A matrix under LU decomposition, its rows taken in the order of the
/// pivots: the rows, which hold the upper factor on and above the diagonal
/// and the factors of the lower one below it; the scale of each row; and
/// for each row its number in the matrix.
pub struct Lup<V> {
    pub rows: Seq<Seq<V>>,
    pub scales: Seq<V>,
    pub order: Seq<usize>,
}

/// The decomposition with the pivot row of column `k` brought to place `k`.
pub open spec fn lup_pivoted<V: FloatTrait>(state: Lup<V>, k: int) -> Lup<V> {
    let p = pivot_row(state.rows, state.scales, k);
    Lup {
        rows: exchanged(state.rows, p, k),
        scales: exchanged(state.scales, p, k),
        order: exchanged(state.order, p, k),
    }
}

/// The decomposition with column `k` eliminated below place `k`, the
/// factors kept in column `k`.
pub open spec fn lup_eliminated<V: FloatTrait>(
    state: Lup<V>,
    k: int,
    threshold: Option<V>,
) -> Lup<V> {
    Lup {
        rows: eliminated(state.rows, k, true, threshold),
        scales: state.scales,
        order: state.order,
    }
}

/// The decomposition after the first `steps` columns; nothing where one of
/// their pivots was too small.
pub open spec fn lup_forward<V: FloatTrait>(
    state: Lup<V>,
    rel_tol: V,
    threshold: Option<V>,
    steps: nat,
) -> Option<Lup<V>>
    decreases steps,
{
    if steps == 0 {
        Some(state)
    } else {
        match lup_forward(state, rel_tol, threshold, (steps - 1) as nat) {
            None => None,
            Some(earlier) => {
                let pivoted = lup_pivoted(earlier, steps - 1);
                if ill_conditioned(pivoted.rows, pivoted.scales, steps - 1, rel_tol) {
                    None
                } else {
                    Some(lup_eliminated(pivoted, steps - 1, threshold))
                }
            },
        }
    }
}

/// The LU decomposition of `rows` with scaled partial pivoting; nothing
/// where a pivot, the last diagonal value included, was too small. With a
/// threshold, a new value whose magnitude is not above it leaves the old
/// value in place.
pub open spec fn lup_decomposed<V: FloatTrait>(
    rows: Seq<Seq<V>>,
    rel_tol: V,
    threshold: Option<V>,
) -> Option<Lup<V>> {
    let n = rows.len();
    let start = Lup { rows, scales: scales(rows), order: natural_order(n) };
    match lup_forward(start, rel_tol, threshold, (n - 1) as nat) {
        None => None,
        Some(done) => if ill_conditioned(done.rows, done.scales, n - 1, rel_tol) {
            None
        } else {
            Some(done)
        },
    }
}

/// The decomposition as the work on the first `steps` columns leaves it:
/// after these columns or, where one of their pivots was too small, with
/// the row of the first such pivot brought to its place and nothing below
/// it eliminated.
pub open spec fn lup_halted<V: FloatTrait>(
    state: Lup<V>,
    rel_tol: V,
    threshold: Option<V>,
    steps: nat,
) -> Lup<V>
    decreases steps,
{
    if steps == 0 {
        state
    } else {
        match lup_forward(state, rel_tol, threshold, (steps - 1) as nat) {
            None => lup_halted(state, rel_tol, threshold, (steps - 1) as nat),
            Some(earlier) => {
                let pivoted = lup_pivoted(earlier, steps - 1);
                if ill_conditioned(pivoted.rows, pivoted.scales, steps - 1, rel_tol) {
                    pivoted
                } else {
                    lup_eliminated(pivoted, steps - 1, threshold)
                }
            },
        }
    }
}

/// The decomposition of `rows` as the work leaves it, whether it ends well
/// or at a pivot that was too small.
pub open spec fn lup_left<V: FloatTrait>(
    rows: Seq<Seq<V>>,
    rel_tol: V,
    threshold: Option<V>,
) -> Lup<V> {
    let n = rows.len();
    lup_halted(
        Lup { rows, scales: scales(rows), order: natural_order(n) },
        rel_tol,
        threshold,
        (n - 1) as nat,
    )
}

/// The ratio of the first pivot among the first `steps` columns that was
/// too small, if there is one.
pub open spec fn lup_small_pivot<V: FloatTrait>(
    state: Lup<V>,
    rel_tol: V,
    threshold: Option<V>,
    steps: nat,
) -> Option<V>
    decreases steps,
{
    if steps == 0 {
        None
    } else {
        match lup_forward(state, rel_tol, threshold, (steps - 1) as nat) {
            None => lup_small_pivot(state, rel_tol, threshold, (steps - 1) as nat),
            Some(earlier) => {
                let pivoted = lup_pivoted(earlier, steps - 1);
                if ill_conditioned(pivoted.rows, pivoted.scales, steps - 1, rel_tol) {
                    Some(ratio(pivoted.rows, pivoted.scales, steps - 1, steps - 1))
                } else {
                    None
                }
            },
        }
    }
}

/// The ratio of the first pivot that was too small in the decomposition of
/// `rows`, the last diagonal value included, if there is one.
pub open spec fn lup_fault<V: FloatTrait>(
    rows: Seq<Seq<V>>,
    rel_tol: V,
    threshold: Option<V>,
) -> Option<V> {
    let n = rows.len();
    let start = Lup { rows, scales: scales(rows), order: natural_order(n) };
    match lup_forward(start, rel_tol, threshold, (n - 1) as nat) {
        None => lup_small_pivot(start, rel_tol, threshold, (n - 1) as nat),
        Some(done) => if ill_conditioned(done.rows, done.scales, n - 1, rel_tol) {
            Some(ratio(done.rows, done.scales, n - 1, n - 1))
        } else {
            None
        },
    }
}

/// `rhs[i]` less `rows[i][j] * y[j]` for the columns `j` below `upto`,
/// taken from the left, where `y` solves the lower triangular system.
pub open spec fn lower_rest<V: FloatTrait>(rows: Seq<Seq<V>>, rhs: Seq<V>, i: int, upto: int) -> V
    decreases i, upto,
{
    if i < 0 || upto <= 0 || upto > i {
        rhs[i]
    } else {
        lower_rest(rows, rhs, i, upto - 1).sub_spec(
            rows[i][upto - 1].mul_spec(lower_y(rows, rhs, upto - 1)),
        )
    }
}

/// The unknown `i` of the lower triangular system with unit diagonal whose
/// factors stand below the diagonal of `rows`, found by forward
/// substitution.
pub open spec fn lower_y<V: FloatTrait>(rows: Seq<Seq<V>>, rhs: Seq<V>, i: int) -> V
    decreases i, i + 1,
{
    if i < 0 {
        rhs[i]
    } else {
        lower_rest(rows, rhs, i, i)
    }
}

/// The solution of the lower triangular system.
pub open spec fn lower_solution<V: FloatTrait>(rows: Seq<Seq<V>>, rhs: Seq<V>) -> Seq<V> {
    Seq::new(rows.len(), |i: int| lower_y(rows, rhs, i))
}

/// The solution of the decomposed system for the right-hand side `rhs`,
/// given in the order of the matrix: forward substitution on the
/// right-hand side taken in the order of the pivots, then back
/// substitution.
pub open spec fn lup_solved<V: FloatTrait>(state: Lup<V>, rhs: Seq<V>) -> Seq<V> {
    upper_solution(state.rows, lower_solution(state.rows, arranged(rhs, state.order)))
}

/// The solution of `rows * x = rhs` by LU decomposition with scaled partial
/// pivoting; nothing where the system is ill conditioned.
pub open spec fn lup_solution<V: FloatTrait>(rows: Seq<Seq<V>>, rhs: Seq<V>, rel_tol: V) -> Option<
    Seq<V>,
> {
    match lup_decomposed(rows, rel_tol, None) {
        None => None,
        Some(state) => Some(lup_solved(state, rhs)),
    }
}

/// The unit vector `i` of length `n`.
pub open spec fn unit<V: FloatTrait>(n: nat, i: int) -> Seq<V> {
    Seq::new(
        n,
        |j: int|
            if j == i {
                one::<V>()
            } else {
                zero::<V>()
            },
    )
}

} // verus!
