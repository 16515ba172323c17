use vstd::prelude::*;
use vstd::std_specs::ops::{AddSpec, DivSpec, MulSpec, SubSpec};
use crate::elimination::{
    eliminated, eliminated_rhs, exchanged, factor, gep_forward, gep_halted, gep_left,
    gep_pivoted,
    gep_reduced, grid, is_square, pivot_upto, ratio, reduced_row,
    row_scale_upto, scales, upper_solution, upper_sum, upper_x, Gep,
};
use crate::float_trait::{
    is_greater, is_less, magnitude_of, obeys_arithmetic, write_over, written, zero_value,
    FloatTrait,
};
use crate::messages::{ill_conditioned_message, ill_conditioned_text};

verus! {

/// The scale of each row: the largest magnitude in it.
pub fn row_scales<V: FloatTrait>(a: &Vec<Vec<V>>, n: usize) -> (s: Vec<V>)
    requires
        obeys_arithmetic::<V>(),
        is_square(grid(a@), n as nat),
        n >= 1,
    ensures
        s@ == scales(grid(a@)),
{
    let mut s: Vec<V> = Vec::new();
    let mut i: usize = 0;
    while i < n
        invariant
            obeys_arithmetic::<V>(),
            is_square(grid(a@), n as nat),
            n >= 1,
            i <= n,
            s@ == Seq::new(i as nat, |r: int| row_scale_upto(grid(a@)[r], n as nat)),
        decreases n - i,
    {
        assert(grid(a@)[i as int].len() == n);
        let mut scale: V = magnitude_of(a[i][0]);
        let mut j: usize = 1;
        while j < n
            invariant
                obeys_arithmetic::<V>(),
                is_square(grid(a@), n as nat),
                i < n,
                1 <= j <= n,
                scale == row_scale_upto(grid(a@)[i as int], j as nat),
            decreases n - j,
        {
            assert(grid(a@)[i as int].len() == n);
            let size: V = magnitude_of(a[i][j]);
            if is_greater(size, scale) {
                scale = size;
            }
            j += 1;
        }
        s.push(scale);
        i += 1;
        assert(s@ =~= Seq::new(i as nat, |r: int| row_scale_upto(grid(a@)[r], n as nat)));
    }
    assert(s@ =~= scales(grid(a@)));
    s
}

/// Exchanges the rows `p` and `k` of `a`.
fn exchange_rows<V: FloatTrait>(a: &mut Vec<Vec<V>>, n: usize, p: usize, k: usize)
    requires
        is_square(grid(old(a)@), n as nat),
        p < n,
        k < n,
    ensures
        grid(final(a)@) == exchanged(grid(old(a)@), p as int, k as int),
{
    let ghost before = grid(a@);
    let mut j: usize = 0;
    while j < n
        invariant
            is_square(before, n as nat),
            is_square(grid(a@), n as nat),
            p < n,
            k < n,
            j <= n,
            forall|i: int| 0 <= i < n && i != p && i != k ==> grid(a@)[i] == before[i],
            forall|c: int|
                0 <= c < n ==> grid(a@)[p as int][c] == (if c < j {
                    before[k as int][c]
                } else {
                    before[p as int][c]
                }),
            forall|c: int|
                0 <= c < n ==> grid(a@)[k as int][c] == (if c < j {
                    before[p as int][c]
                } else {
                    before[k as int][c]
                }),
        decreases n - j,
    {
        assert(grid(a@)[p as int].len() == n && grid(a@)[k as int].len() == n);
        let ghost rows = grid(a@);
        let upper: V = a[p][j];
        let lower: V = a[k][j];
        a[p][j] = lower;
        assert(grid(a@)[p as int].len() == n && grid(a@)[k as int].len() == n);
        a[k][j] = upper;
        assert forall|i: int| 0 <= i < n implies (#[trigger] grid(a@)[i]).len() == n by {
            assert(rows[i].len() == n);
        }
        j += 1;
    }
    assert forall|i: int| 0 <= i < n implies grid(a@)[i] == exchanged(
        before,
        p as int,
        k as int,
    )[i] by {
        assert(before[i].len() == n);
        assert(grid(a@)[i].len() == n);
        assert(grid(a@)[i] =~= exchanged(before, p as int, k as int)[i]);
    }
    assert(grid(a@) =~= exchanged(before, p as int, k as int));
}

/// Finds the pivot row of column `k` and brings it to row `k`, together
/// with its right-hand side and its scale; counts the exchange in `pn`.
pub fn pivot_gep<V: FloatTrait>(
    a: &mut Vec<Vec<V>>,
    b: &mut Vec<V>,
    s: &mut Vec<V>,
    n: usize,
    k: usize,
    pn: &mut usize,
)
    requires
        obeys_arithmetic::<V>(),
        is_square(grid(old(a)@), n as nat),
        old(b).len() == n,
        old(s).len() == n,
        k < n,
        *old(pn) < n,
    ensures
        is_square(grid(final(a)@), n as nat),
        final(b).len() == n,
        final(s).len() == n,
        (Gep {
            rows: grid(final(a)@),
            rhs: final(b)@,
            scales: final(s)@,
            swaps: *final(pn) as nat,
        }) == gep_pivoted(
            Gep { rows: grid(old(a)@), rhs: old(b)@, scales: old(s)@, swaps: *old(pn) as nat },
            k as int,
        ),
{
    let ghost rows = grid(a@);
    let ghost sizes = s@;
    let mut p: usize = k;
    assert(rows[k as int].len() == n);
    let mut big: V = magnitude_of(a[k][k] / s[k]);
    let mut ii: usize = k + 1;
    while ii < n
        invariant
            obeys_arithmetic::<V>(),
            rows == grid(a@),
            sizes == s@,
            is_square(rows, n as nat),
            s.len() == n,
            k < ii <= n,
            k <= p < ii,
            p == pivot_upto(rows, sizes, k as int, ii as int),
            big == ratio(rows, sizes, p as int, k as int),
        decreases n - ii,
    {
        assert(rows[ii as int].len() == n);
        let dummy: V = magnitude_of(a[ii][k] / s[ii]);
        if is_greater(dummy, big) {
            big = dummy;
            p = ii;
        }
        ii += 1;
    }
    proof {
        lemma_pivot_in_range(rows, sizes, k as int, n as int);
    }
    if p != k {
        *pn += 1;
        exchange_rows(a, n, p, k);
        let dummy: V = b[p];
        b[p] = b[k];
        b[k] = dummy;
        let dummy: V = s[p];
        s[p] = s[k];
        s[k] = dummy;
        assert(b@ =~= exchanged(old(b)@, p as int, k as int));
        assert(s@ =~= exchanged(old(s)@, p as int, k as int));
    } else {
        assert(grid(a@) =~= exchanged(rows, p as int, k as int));
        assert(b@ =~= exchanged(old(b)@, p as int, k as int));
        assert(s@ =~= exchanged(old(s)@, p as int, k as int));
    }
}

/// Takes the row `pivot` off the row `target` for column `k`: right of
/// column `k` each value of the target row loses the factor times the pivot
/// row's value; the factor is stored in column `k` where it is kept.
/// Returns the factor.
pub fn reduce_row<V: FloatTrait>(
    a: &mut Vec<Vec<V>>,
    n: usize,
    k: usize,
    target: usize,
    pivot: usize,
    keep_factor: bool,
    threshold: Option<V>,
) -> (ratio: V)
    requires
        obeys_arithmetic::<V>(),
        is_square(grid(old(a)@), n as nat),
        k < n,
        target < n,
        pivot < n,
        target != pivot,
    ensures
        ratio == factor(grid(old(a)@)[target as int], grid(old(a)@)[pivot as int], k as int),
        grid(final(a)@) == grid(old(a)@).update(
            target as int,
            reduced_row(
                grid(old(a)@)[target as int],
                grid(old(a)@)[pivot as int],
                k as int,
                keep_factor,
                threshold,
            ),
        ),
        is_square(grid(final(a)@), n as nat),
{
    let ghost before = grid(a@);
    assert(before[target as int].len() == n && before[pivot as int].len() == n);
    let ratio: V = a[target][k] / a[pivot][k];
    if keep_factor {
        let kept: V = write_over(a[target][k], ratio, threshold);
        a[target][k] = kept;
    }
    assert forall|r: int| 0 <= r < n implies (#[trigger] grid(a@)[r]).len() == n by {
        assert(before[r].len() == n);
    }
    let mut j: usize = k + 1;
    while j < n
        invariant
            obeys_arithmetic::<V>(),
            is_square(before, n as nat),
            is_square(grid(a@), n as nat),
            k < n,
            target < n,
            pivot < n,
            target != pivot,
            k < j <= n,
            ratio == factor(before[target as int], before[pivot as int], k as int),
            forall|r: int| 0 <= r < n && r != target ==> grid(a@)[r] == before[r],
            forall|c: int|
                0 <= c < n ==> grid(a@)[target as int][c] == (if k < c < j {
                    written(
                        before[target as int][c],
                        before[target as int][c].sub_spec(
                            ratio.mul_spec(before[pivot as int][c]),
                        ),
                        threshold,
                    )
                } else if c == k && keep_factor {
                    written(before[target as int][c], ratio, threshold)
                } else {
                    before[target as int][c]
                }),
        decreases n - j,
    {
        assert(grid(a@)[target as int].len() == n && grid(a@)[pivot as int].len() == n);
        let ghost rows = grid(a@);
        let value: V = write_over(a[target][j], a[target][j] - ratio * a[pivot][j], threshold);
        a[target][j] = value;
        assert forall|r: int| 0 <= r < n implies (#[trigger] grid(a@)[r]).len() == n by {
            assert(rows[r].len() == n);
        }
        j += 1;
    }
    assert(grid(a@)[target as int].len() == n);
    assert(grid(a@)[target as int] =~= reduced_row(
        before[target as int],
        before[pivot as int],
        k as int,
        keep_factor,
        threshold,
    ));
    assert(grid(a@) =~= before.update(
        target as int,
        reduced_row(
            before[target as int],
            before[pivot as int],
            k as int,
            keep_factor,
            threshold,
        ),
    ));
    ratio
}

/// Brings the system to upper triangular form by scaled partial pivoting
/// and returns the number of row exchanges; fails where a pivot is too
/// small against the scale of its row, and `a`, `b` and `s` then stay as
/// the work had left them at that pivot.
pub fn eliminate_gep<V: FloatTrait>(
    a: &mut Vec<Vec<V>>,
    s: &mut Vec<V>,
    n: usize,
    b: &mut Vec<V>,
    rel_tol: V,
) -> (r: Result<usize, String>)
    requires
        obeys_arithmetic::<V>(),
        is_square(grid(old(a)@), n as nat),
        old(b).len() == n,
        old(s).len() == n,
        n >= 1,
    ensures
        r.is_ok() == gep_reduced(
            Gep { rows: grid(old(a)@), rhs: old(b)@, scales: old(s)@, swaps: 0 },
            rel_tol,
        ).is_some(),
        r.is_ok() ==> is_square(grid(final(a)@), n as nat),
        r.is_ok() ==> final(b).len() == n && final(s).len() == n,
        r matches Ok(pn) ==> Some(
            Gep { rows: grid(final(a)@), rhs: final(b)@, scales: final(s)@, swaps: pn as nat },
        ) == gep_reduced(
            Gep { rows: grid(old(a)@), rhs: old(b)@, scales: old(s)@, swaps: 0 },
            rel_tol,
        ),
        r matches Err(e) ==> e@ == ill_conditioned_text(),
        is_square(grid(final(a)@), n as nat),
        final(b).len() == n,
        final(s).len() == n,
        ({
            let left = gep_left(
                Gep { rows: grid(old(a)@), rhs: old(b)@, scales: old(s)@, swaps: 0 },
                rel_tol,
            );
            grid(final(a)@) == left.rows && final(b)@ == left.rhs && final(s)@ == left.scales
        }),
{
    let ghost start = Gep { rows: grid(a@), rhs: b@, scales: s@, swaps: 0 };
    let mut pn: usize = 0;
    let mut k: usize = 0;
    while k < n - 1
        invariant
            obeys_arithmetic::<V>(),
            n >= 1,
            k <= n - 1,
            pn <= k,
            is_square(grid(a@), n as nat),
            b.len() == n,
            s.len() == n,
            start == (Gep { rows: grid(old(a)@), rhs: old(b)@, scales: old(s)@, swaps: 0 }),
            start.rows.len() == n,
            gep_forward(start, rel_tol, k as nat) == Some(
                Gep { rows: grid(a@), rhs: b@, scales: s@, swaps: pn as nat },
            ),
        decreases n - 1 - k,
    {
        let ghost earlier = Gep { rows: grid(a@), rhs: b@, scales: s@, swaps: pn as nat };
        pivot_gep(a, b, s, n, k, &mut pn);
        let ghost pivoted = Gep { rows: grid(a@), rhs: b@, scales: s@, swaps: pn as nat };
        assert(pivoted == gep_pivoted(earlier, k as int));
        assert(grid(a@)[k as int].len() == n);
        if is_less(magnitude_of(a[k][k] / s[k]), rel_tol) {
            proof {
                assert(gep_forward(start, rel_tol, (k + 1) as nat).is_none());
                lemma_forward_fails(start, rel_tol, (k + 1) as nat, (n - 1) as nat);
                assert(gep_halted(start, rel_tol, (k + 1) as nat) == pivoted);
                lemma_halted_stays(start, rel_tol, (k + 1) as nat, (n - 1) as nat);
            }
            return Err(ill_conditioned_message());
        }
        let mut i: usize = k + 1;
        while i < n
            invariant
                obeys_arithmetic::<V>(),
                k < i <= n,
                is_square(grid(a@), n as nat),
                is_square(pivoted.rows, n as nat),
                pivoted.rhs.len() == n,
                b.len() == n,
                forall|r: int| 0 <= r < n ==> grid(a@)[r] == (if k < r < i {
                    reduced_row(pivoted.rows[r], pivoted.rows[k as int], k as int, false, None)
                } else {
                    pivoted.rows[r]
                }),
                forall|r: int| 0 <= r < n ==> b@[r] == (if k < r < i {
                    pivoted.rhs[r].sub_spec(
                        factor(pivoted.rows[r], pivoted.rows[k as int], k as int).mul_spec(
                            pivoted.rhs[k as int],
                        ),
                    )
                } else {
                    pivoted.rhs[r]
                }),
            decreases n - i,
        {
            let ratio: V = reduce_row(a, n, k, i, k, false, None);
            b[i] = b[i] - ratio * b[k];
            i += 1;
        }
        assert(grid(a@) =~= eliminated(pivoted.rows, k as int, false, None));
        assert(b@ =~= eliminated_rhs(pivoted.rows, pivoted.rhs, k as int));
        k += 1;
        assert(gep_forward(start, rel_tol, k as nat) == Some(
            Gep { rows: grid(a@), rhs: b@, scales: s@, swaps: pn as nat },
        ));
    }
    assert(grid(a@)[n - 1].len() == n);
    proof {
        lemma_halted_at_end(start, rel_tol, (n - 1) as nat);
    }
    if is_less(magnitude_of(a[n - 1][n - 1] / s[n - 1]), rel_tol) {
        return Err(ill_conditioned_message());
    }
    Ok(pn)
}

/// Where the first `steps` columns were eliminated, the work leaves what
/// they gave.
pub proof fn lemma_halted_at_end<V: FloatTrait>(system: Gep<V>, rel_tol: V, steps: nat)
    requires
        gep_forward(system, rel_tol, steps).is_some(),
    ensures
        Some(gep_halted(system, rel_tol, steps)) == gep_forward(system, rel_tol, steps),
{
}

/// Once a pivot was too small, the system is left as it stood then.
pub proof fn lemma_halted_stays<V: FloatTrait>(system: Gep<V>, rel_tol: V, steps: nat, more: nat)
    requires
        steps <= more,
        gep_forward(system, rel_tol, steps).is_none(),
    ensures
        gep_halted(system, rel_tol, more) == gep_halted(system, rel_tol, steps),
    decreases more,
{
    if steps < more {
        lemma_forward_fails(system, rel_tol, steps, (more - 1) as nat);
        lemma_halted_stays(system, rel_tol, steps, (more - 1) as nat);
    }
}

/// Once a pivot was too small, no later step is reached.
pub proof fn lemma_forward_fails<V: FloatTrait>(system: Gep<V>, rel_tol: V, steps: nat, more: nat)
    requires
        steps <= more,
        gep_forward(system, rel_tol, steps).is_none(),
    ensures
        gep_forward(system, rel_tol, more).is_none(),
    decreases more,
{
    if steps < more {
        lemma_forward_fails(system, rel_tol, steps, (more - 1) as nat);
    }
}

/// The pivot row lies at or below row `k`.
pub proof fn lemma_pivot_in_range<V: FloatTrait>(
    rows: Seq<Seq<V>>,
    scales: Seq<V>,
    k: int,
    upto: int,
)
    requires
        k < upto,
    ensures
        k <= pivot_upto(rows, scales, k, upto) < upto,
    decreases upto - k,
{
    if upto > k + 1 {
        lemma_pivot_in_range(rows, scales, k, upto - 1);
    }
}

/// Solves the upper triangular system `a * x = b` by back substitution.
pub fn substitute_gep<V: FloatTrait>(a: &Vec<Vec<V>>, n: usize, b: &Vec<V>, x: &mut Vec<V>)
    requires
        obeys_arithmetic::<V>(),
        is_square(grid(a@), n as nat),
        b.len() == n,
        old(x).len() == n,
        n >= 1,
    ensures
        final(x)@ == upper_solution(grid(a@), b@),
{
    let ghost rows = grid(a@);
    assert(rows[n - 1].len() == n);
    x[n - 1] = b[n - 1] / a[n - 1][n - 1];
    let mut i: usize = n - 1;
    while i > 0
        invariant
            obeys_arithmetic::<V>(),
            rows == grid(a@),
            is_square(rows, n as nat),
            b.len() == n,
            x.len() == n,
            i < n,
            forall|r: int| i <= r < n ==> x@[r] == upper_x(rows, b@, r),
        decreases i,
    {
        i -= 1;
        assert(rows[i as int].len() == n);
        let mut sum: V = zero_value();
        let mut j: usize = i + 1;
        while j < n
            invariant
                obeys_arithmetic::<V>(),
                rows == grid(a@),
                is_square(rows, n as nat),
                x.len() == n,
                i < j <= n,
                forall|r: int| i < r < n ==> x@[r] == upper_x(rows, b@, r),
                sum == upper_sum(rows, b@, i as int, j as int),
            decreases n - j,
        {
            assert(rows[i as int].len() == n);
            sum = sum + a[i][j] * x[j];
            j += 1;
        }
        x[i] = (b[i] - sum) / a[i][i];
    }
    assert(x@ =~= upper_solution(rows, b@));
}

} // verus!
