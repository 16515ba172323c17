use vstd::prelude::*;
use vstd::std_specs::ops::{AddSpec, DivSpec, MulSpec, SubSpec};
use crate::elimination::{
    arranged, eliminated, exchanged, grid, is_order, is_square, lower_rest,
    lower_solution, lower_y, lup_decomposed, lup_fault, lup_forward, lup_halted, lup_left,
    lup_pivoted,
    lup_small_pivot, natural_order, pivot_upto, ratio, reduced_row, scales, upper_solution, upper_sum,
    upper_x, Lup,
};
use crate::float_trait::{
    is_greater, is_less, less, magnitude_of, obeys_arithmetic, zero_value, FloatTrait,
};
use crate::gep::{reduce_row, row_scales};

verus! {

/// The decomposition that the matrix `a`, the row order `o` and the scales
/// `s` stand for.
pub open spec fn lup_of<V>(a: Seq<Vec<V>>, o: Seq<usize>, s: Seq<V>) -> Lup<V> {
    Lup { rows: arranged(grid(a), o), scales: arranged(s, o), order: o }
}

/// Once a pivot was too small, no later step is reached.
pub proof fn lemma_lup_forward_fails<V: FloatTrait>(
    state: Lup<V>,
    rel_tol: V,
    threshold: Option<V>,
    steps: nat,
    more: nat,
)
    requires
        steps <= more,
        lup_forward(state, rel_tol, threshold, steps).is_none(),
    ensures
        lup_forward(state, rel_tol, threshold, more).is_none(),
        lup_small_pivot(state, rel_tol, threshold, more) == lup_small_pivot(
            state,
            rel_tol,
            threshold,
            steps,
        ),
    decreases more,
{
    if steps < more {
        lemma_lup_forward_fails(state, rel_tol, threshold, steps, (more - 1) as nat);
    }
}

/// Where the first `steps` columns were decomposed, the work leaves what
/// they gave.
pub proof fn lemma_lup_halted_at_end<V: FloatTrait>(
    state: Lup<V>,
    rel_tol: V,
    threshold: Option<V>,
    steps: nat,
)
    requires
        lup_forward(state, rel_tol, threshold, steps).is_some(),
    ensures
        Some(lup_halted(state, rel_tol, threshold, steps)) == lup_forward(
            state,
            rel_tol,
            threshold,
            steps,
        ),
{
}

/// Once a pivot was too small, the decomposition is left as it stood then.
pub proof fn lemma_lup_halted_stays<V: FloatTrait>(
    state: Lup<V>,
    rel_tol: V,
    threshold: Option<V>,
    steps: nat,
    more: nat,
)
    requires
        steps <= more,
        lup_forward(state, rel_tol, threshold, steps).is_none(),
    ensures
        lup_halted(state, rel_tol, threshold, more) == lup_halted(
            state,
            rel_tol,
            threshold,
            steps,
        ),
    decreases more,
{
    if steps < more {
        lemma_lup_forward_fails(state, rel_tol, threshold, steps, (more - 1) as nat);
        lemma_lup_halted_stays(state, rel_tol, threshold, steps, (more - 1) as nat);
    }
}

/// A decomposition that ends well is left as the decomposition.
pub proof fn lemma_lup_left<V: FloatTrait>(rows: Seq<Seq<V>>, rel_tol: V, threshold: Option<V>)
    requires
        lup_decomposed(rows, rel_tol, threshold).is_some(),
    ensures
        Some(lup_left(rows, rel_tol, threshold)) == lup_decomposed(rows, rel_tol, threshold),
{
    let start = Lup { rows, scales: scales(rows), order: natural_order(rows.len()) };
    lemma_lup_halted_at_end(start, rel_tol, threshold, (rows.len() - 1) as nat);
}

/// Exchanging two places of an order leaves an order.
pub proof fn lemma_exchanged_order(order: Seq<usize>, n: nat, p: int, k: int)
    requires
        is_order(order, n),
        0 <= p < n,
        0 <= k < n,
    ensures
        is_order(exchanged(order, p, k), n),
{
    let after = exchanged(order, p, k);
    assert forall|i: int, j: int| 0 <= i < j < n implies #[trigger] after[i] != #[trigger] after[j] by {
        let source = |x: int| if x == p { k } else if x == k { p } else { x };
        let si = source(i);
        let sj = source(j);
        assert(after[i] == order[si] && after[j] == order[sj]);
        assert(si != sj);
        if si < sj {
            assert(order[si] != order[sj]);
        } else {
            assert(order[sj] != order[si]);
        }
    }
}

/// Finds the pivot row of column `k` among the rows in the order `o` and
/// brings its number to place `k` of `o`.
pub fn pivot_lup<V: FloatTrait>(a: &Vec<Vec<V>>, o: &mut Vec<usize>, s: &Vec<V>, n: usize, k: usize)
    requires
        obeys_arithmetic::<V>(),
        is_square(grid(a@), n as nat),
        is_order(old(o)@, n as nat),
        s.len() == n,
        k < n,
    ensures
        is_order(final(o)@, n as nat),
        lup_of(a@, final(o)@, s@) == lup_pivoted(lup_of(a@, old(o)@, s@), k as int),
{
    let ghost state = lup_of(a@, o@, s@);
    let mut p: usize = k;
    assert(grid(a@)[o@[k as int] as int].len() == n);
    let mut big: V = magnitude_of(a[o[k]][k] / s[o[k]]);
    let mut ii: usize = k + 1;
    while ii < n
        invariant
            obeys_arithmetic::<V>(),
            is_square(grid(a@), n as nat),
            is_order(o@, n as nat),
            state == lup_of(a@, o@, s@),
            s.len() == n,
            k < ii <= n,
            k <= p < ii,
            p == pivot_upto(state.rows, state.scales, k as int, ii as int),
            big == ratio(state.rows, state.scales, p as int, k as int),
        decreases n - ii,
    {
        assert(grid(a@)[o@[ii as int] as int].len() == n);
        let dummy: V = magnitude_of(a[o[ii]][k] / s[o[ii]]);
        if is_greater(dummy, big) {
            big = dummy;
            p = ii;
        }
        ii += 1;
    }
    let dummy: usize = o[p];
    o[p] = o[k];
    o[k] = dummy;
    proof {
        assert(o@ =~= exchanged(old(o)@, p as int, k as int));
        lemma_exchanged_order(old(o)@, n as nat, p as int, k as int);
        assert(arranged(grid(a@), o@) =~= exchanged(state.rows, p as int, k as int));
        assert(arranged(s@, o@) =~= exchanged(state.scales, p as int, k as int));
    }
}

/// Decomposes `a` in place with scaled partial pivoting: `o` receives the
/// order of the pivot rows, `s` the scale of each row, and each row of `a`
/// the upper factor and, below the diagonal of its place in `o`, the
/// factors of the lower one. With a threshold, a new value whose magnitude
/// is not above it leaves the old value in place. Fails where a pivot is
/// too small against the scale of its row; `a`, `o` and `s` then stay as
/// the work had left them at that pivot.
pub fn decompose_lup<V: FloatTrait>(
    a: &mut Vec<Vec<V>>,
    n: usize,
    rel_tol: V,
    o: &mut Vec<usize>,
    s: &mut Vec<V>,
    threshold: Option<V>,
) -> (r: Result<(), V>)
    requires
        obeys_arithmetic::<V>(),
        is_square(grid(old(a)@), n as nat),
        old(o).len() == n,
        old(s).len() == n,
        n >= 1,
    ensures
        r.is_ok() == lup_decomposed(grid(old(a)@), rel_tol, threshold).is_some(),
        r.is_ok() ==> is_square(grid(final(a)@), n as nat) && is_order(final(o)@, n as nat)
            && final(s).len() == n && Some(lup_of(final(a)@, final(o)@, final(s)@))
            == lup_decomposed(grid(old(a)@), rel_tol, threshold),
        r matches Err(small) ==> Some(small) == lup_fault(grid(old(a)@), rel_tol, threshold)
            && less(small, rel_tol),
        is_square(grid(final(a)@), n as nat),
        is_order(final(o)@, n as nat),
        final(s).len() == n,
        lup_of(final(a)@, final(o)@, final(s)@) == lup_left(grid(old(a)@), rel_tol, threshold),
{
    let sizes: Vec<V> = row_scales(a, n);
    let mut i: usize = 0;
    while i < n
        invariant
            i <= n,
            o.len() == n,
            s.len() == n,
            sizes.len() == n,
            sizes@ == scales(grid(a@)),
            grid(a@) == grid(old(a)@),
            is_square(grid(a@), n as nat),
            forall|r: int| 0 <= r < i ==> o@[r] == r,
            forall|r: int| 0 <= r < i ==> s@[r] == sizes@[r],
        decreases n - i,
    {
        o[i] = i;
        s[i] = sizes[i];
        i += 1;
    }
    assert(o@ =~= natural_order(n as nat));
    assert(s@ =~= scales(grid(a@)));
    let ghost start = lup_of(a@, o@, s@);
    assert(start.rows =~= grid(a@));
    assert(start.scales =~= scales(grid(a@)));
    let mut k: usize = 0;
    while k < n - 1
        invariant
            obeys_arithmetic::<V>(),
            n >= 1,
            k <= n - 1,
            is_square(grid(a@), n as nat),
            is_order(o@, n as nat),
            s.len() == n,
            grid(old(a)@).len() == n,
            start == (Lup {
                rows: grid(old(a)@),
                scales: scales(grid(old(a)@)),
                order: natural_order(n as nat),
            }),
            lup_forward(start, rel_tol, threshold, k as nat) == Some(lup_of(a@, o@, s@)),
        decreases n - 1 - k,
    {
        let ghost earlier = lup_of(a@, o@, s@);
        pivot_lup(a, o, s, n, k);
        let ghost pivoted = lup_of(a@, o@, s@);
        assert(grid(a@)[o@[k as int] as int].len() == n);
        assert(pivoted.rows[k as int] == grid(a@)[o@[k as int] as int]);
        assert(pivoted.scales[k as int] == s@[o@[k as int] as int]);
        let size: V = magnitude_of(a[o[k]][k] / s[o[k]]);
        if is_less(size, rel_tol) {
            proof {
                assert(lup_forward(start, rel_tol, threshold, (k + 1) as nat).is_none());
                lemma_lup_forward_fails(
                    start,
                    rel_tol,
                    threshold,
                    (k + 1) as nat,
                    (n - 1) as nat,
                );
                assert(lup_halted(start, rel_tol, threshold, (k + 1) as nat) == pivoted);
                lemma_lup_halted_stays(
                    start,
                    rel_tol,
                    threshold,
                    (k + 1) as nat,
                    (n - 1) as nat,
                );
            }
            return Err(size);
        }
        let mut i: usize = k + 1;
        while i < n
            invariant
                obeys_arithmetic::<V>(),
                k < i <= n,
                is_square(grid(a@), n as nat),
                is_order(o@, n as nat),
                pivoted.rows.len() == n,
                pivoted.order == o@,
                forall|r: int| 0 <= r < n ==> grid(a@)[o@[r] as int] == (if k < r < i {
                    reduced_row(
                        pivoted.rows[r],
                        pivoted.rows[k as int],
                        k as int,
                        true,
                        threshold,
                    )
                } else {
                    pivoted.rows[r]
                }),
            decreases n - i,
        {
            let target: usize = o[i];
            let pivot: usize = o[k];
            let ghost rows = grid(a@);
            reduce_row(a, n, k, target, pivot, true, threshold);
            assert forall|r: int| 0 <= r < n implies grid(a@)[o@[r] as int] == (if k < r < i + 1 {
                reduced_row(
                        pivoted.rows[r],
                        pivoted.rows[k as int],
                        k as int,
                        true,
                        threshold,
                    )
            } else {
                pivoted.rows[r]
            }) by {
                if r < i {
                    assert(o@[r] != o@[i as int]);
                } else if r > i {
                    assert(o@[i as int] != o@[r]);
                }
                assert(rows[o@[r] as int] == (if k < r < i {
                    reduced_row(
                        pivoted.rows[r],
                        pivoted.rows[k as int],
                        k as int,
                        true,
                        threshold,
                    )
                } else {
                    pivoted.rows[r]
                }));
                assert(rows[o@[k as int] as int] == pivoted.rows[k as int]);
            }
            i += 1;
        }
        assert(arranged(grid(a@), o@) =~= eliminated(pivoted.rows, k as int, true, threshold));
        k += 1;
    }
    assert(grid(a@)[o@[n - 1] as int].len() == n);
    assert(lup_of(a@, o@, s@).rows[n - 1] == grid(a@)[o@[n - 1] as int]);
    assert(lup_of(a@, o@, s@).scales[n - 1] == s@[o@[n - 1] as int]);
    proof {
        lemma_lup_halted_at_end(start, rel_tol, threshold, (n - 1) as nat);
    }
    let size: V = magnitude_of(a[o[n - 1]][n - 1] / s[o[n - 1]]);
    if is_less(size, rel_tol) {
        return Err(size);
    }
    Ok(())
}

/// Solves the decomposed system for the right-hand side `b`: forward
/// substitution, which leaves its result in `b`, then back substitution
/// into `x`.
pub fn substitute_lup<V: FloatTrait>(
    a: &Vec<Vec<V>>,
    o: &Vec<usize>,
    n: usize,
    b: &mut Vec<V>,
    x: &mut Vec<V>,
)
    requires
        obeys_arithmetic::<V>(),
        is_square(grid(a@), n as nat),
        is_order(o@, n as nat),
        old(b).len() == n,
        old(x).len() == n,
        n >= 1,
    ensures
        final(x)@ == upper_solution(
            arranged(grid(a@), o@),
            lower_solution(arranged(grid(a@), o@), arranged(old(b)@, o@)),
        ),
        arranged(final(b)@, o@) == lower_solution(
            arranged(grid(a@), o@),
            arranged(old(b)@, o@),
        ),
        final(b).len() == n,
{
    let ghost rows = arranged(grid(a@), o@);
    let ghost rhs = arranged(b@, o@);
    let mut i: usize = 1;
    while i < n
        invariant
            obeys_arithmetic::<V>(),
            is_square(grid(a@), n as nat),
            is_order(o@, n as nat),
            rows == arranged(grid(a@), o@),
            rhs.len() == n,
            b.len() == n,
            1 <= i <= n,
            forall|r: int| 0 <= r < n ==> b@[o@[r] as int] == (if r < i {
                lower_y(rows, rhs, r)
            } else {
                rhs[r]
            }),
        decreases n - i,
    {
        assert(grid(a@)[o@[i as int] as int].len() == n);
        let mut sum: V = b[o[i]];
        let mut j: usize = 0;
        while j < i
            invariant
                obeys_arithmetic::<V>(),
                is_square(grid(a@), n as nat),
                is_order(o@, n as nat),
                rows == arranged(grid(a@), o@),
                b.len() == n,
                i < n,
                j <= i,
                forall|r: int| 0 <= r < i ==> b@[o@[r] as int] == lower_y(rows, rhs, r),
                sum == lower_rest(rows, rhs, i as int, j as int),
            decreases i - j,
        {
            assert(grid(a@)[o@[i as int] as int].len() == n);
            assert(rows[i as int] == grid(a@)[o@[i as int] as int]);
            assert(b@[o@[j as int] as int] == lower_y(rows, rhs, j as int));
            sum = sum - a[o[i]][j] * b[o[j]];
            j += 1;
        }
        let ghost before = b@;
        let place: usize = o[i];
        b[place] = sum;
        assert forall|r: int| 0 <= r < n implies b@[o@[r] as int] == (if r < i + 1 {
            lower_y(rows, rhs, r)
        } else {
            rhs[r]
        }) by {
            if r < i {
                assert(o@[r] != o@[i as int]);
            } else if r > i {
                assert(o@[i as int] != o@[r]);
            }
            assert(before[o@[r] as int] == (if r < i {
                lower_y(rows, rhs, r)
            } else {
                rhs[r]
            }));
        }
        i += 1;
    }
    let ghost y = lower_solution(rows, rhs);
    assert(arranged(b@, o@) =~= y);
    assert(grid(a@)[o@[n - 1] as int].len() == n);
    assert(rows[n - 1] == grid(a@)[o@[n - 1] as int]);
    assert(y[n - 1] == b@[o@[n - 1] as int]);
    x[n - 1] = b[o[n - 1]] / a[o[n - 1]][n - 1];
    let mut i: usize = n - 1;
    while i > 0
        invariant
            obeys_arithmetic::<V>(),
            is_square(grid(a@), n as nat),
            is_order(o@, n as nat),
            rows == arranged(grid(a@), o@),
            y == arranged(b@, o@),
            b.len() == n,
            x.len() == n,
            i < n,
            forall|r: int| i <= r < n ==> x@[r] == upper_x(rows, y, r),
        decreases i,
    {
        i -= 1;
        assert(grid(a@)[o@[i as int] as int].len() == n);
        let mut sum: V = zero_value();
        let mut j: usize = i + 1;
        while j < n
            invariant
                obeys_arithmetic::<V>(),
                is_square(grid(a@), n as nat),
                is_order(o@, n as nat),
                rows == arranged(grid(a@), o@),
                rows.len() == n,
                x.len() == n,
                i < j <= n,
                forall|r: int| i < r < n ==> x@[r] == upper_x(rows, y, r),
                sum == upper_sum(rows, y, i as int, j as int),
            decreases n - j,
        {
            assert(grid(a@)[o@[i as int] as int].len() == n);
            assert(rows[i as int] == grid(a@)[o@[i as int] as int]);
            assert(x@[j as int] == upper_x(rows, y, j as int));
            assert(upper_sum(rows, y, i as int, j + 1) == upper_sum(
                rows,
                y,
                i as int,
                j as int,
            ).add_spec(rows[i as int][j as int].mul_spec(upper_x(rows, y, j as int))));
            sum = sum + a[o[i]][j] * x[j];
            j += 1;
        }
        assert(rows[i as int] == grid(a@)[o@[i as int] as int]);
        assert(y[i as int] == b@[o@[i as int] as int]);
        x[i] = (b[o[i]] - sum) / a[o[i]][i];
    }
    assert(x@ =~= upper_solution(rows, y));
}

} // verus!
