use vstd::prelude::*;
use vstd::std_specs::ops::{DivSpec, MulSpec, NegSpec, SubSpec};
use vstd::string::StringExecFns;
use crate::basic_matrix::{
    assigned, incorrect_number_text, listing_kind, out_of_size_text, significant_part, BasicMatrix,
    BasicMatrixType,
};
use crate::basic_operations_trait::value_or_zero;
use crate::extended_matrix::{shapes_text, ExtendedMatrix};
use crate::float_trait::{is_zero, is_zero_value, obeys_arithmetic, one, zero, FloatTrait};
use crate::matrix_element_position::MatrixElementPosition;
use crate::operation::Operation;
use crate::position::Position;
use crate::shape::Shape;
use crate::square_matrix_trait::zeros;
use crate::uint_trait::UIntTrait;

verus! {

/// "Extended matrix: Matrix is singular!"
pub open spec fn singular_text() -> Seq<char> {
    "Extended matrix: Matrix is singular!"@
}

/// What `position` reads as in a matrix of the given kind.
pub open spec fn read<V: FloatTrait>(
    kind: BasicMatrixType,
    elements: Map<Position, V>,
    position: Position,
) -> V {
    if kind == BasicMatrixType::Symmetric && position.0 > position.1 {
        value_or_zero(elements, position.swapped())
    } else {
        value_or_zero(elements, position)
    }
}

/// What is taken off the value at `position` when column `k` is
/// eliminated: the value of the position's row in column `k`, divided by
/// the pivot, times the value of row `k` in the position's column.
pub open spec fn share<V: FloatTrait>(
    kind: BasicMatrixType,
    elements: Map<Position, V>,
    k: usize,
    position: Position,
) -> V {
    read(kind, elements, Position(position.0, k)).div_spec(
        read(kind, elements, Position(k, k)),
    ).mul_spec(read(kind, elements, Position(k, position.1)))
}

/// The value at `position` less `amount`: a stored value is reduced, a
/// missing one becomes minus the amount.
pub open spec fn reduced<V: FloatTrait>(elements: Map<Position, V>, position: Position, amount: V) -> V {
    if elements.contains_key(position) {
        elements[position].sub_spec(amount)
    } else {
        amount.mul_spec(one::<V>().neg_spec())
    }
}

/// The matrix takes a new value at `position` when column `k` of `n` is
/// eliminated: the position lies below and right of the pivot, and not
/// below the diagonal of a symmetric matrix.
pub open spec fn reached(kind: BasicMatrixType, k: usize, n: usize, position: Position) -> bool {
    k < position.0 < n && k < position.1 < n && (kind == BasicMatrixType::NonSymmetric
        || position.0 <= position.1)
}

/// The stored values of the matrix while column `k` is eliminated, when
/// the rows above `row` and the columns of `row` left of `column` are
/// done.
pub open spec fn swept_before<V: FloatTrait>(
    kind: BasicMatrixType,
    elements: Map<Position, V>,
    k: usize,
    n: usize,
    row: usize,
    column: usize,
) -> Map<Position, V> {
    Map::new(
        |p: Position|
            elements.contains_key(p) || (reached(kind, k, n, p) && (p.0 < row || (p.0 == row
                && p.1 < column))),
        |p: Position|
            if reached(kind, k, n, p) && (p.0 < row || (p.0 == row && p.1 < column)) {
                reduced(elements, p, share(kind, elements, k, p))
            } else {
                elements[p]
            },
    )
}

/// The stored values of the matrix after column `k` was eliminated.
pub open spec fn swept<V: FloatTrait>(
    kind: BasicMatrixType,
    elements: Map<Position, V>,
    k: usize,
    n: usize,
) -> Map<Position, V> {
    swept_before(kind, elements, k, n, n, 0)
}

/// The right-hand side takes a new value at `position` when column `k` of
/// `n` is eliminated.
pub open spec fn reached_rhs(kind: BasicMatrixType, k: usize, n: usize, position: Position) -> bool {
    k < position.0 < n && position.1 == 0 && kind == BasicMatrixType::NonSymmetric
}

/// What is taken off the right-hand side at `position` when column `k` is
/// eliminated.
pub open spec fn share_rhs<V: FloatTrait>(
    kind: BasicMatrixType,
    elements: Map<Position, V>,
    rhs_kind: BasicMatrixType,
    rhs: Map<Position, V>,
    k: usize,
    position: Position,
) -> V {
    read(kind, elements, Position(position.0, k)).div_spec(
        read(kind, elements, Position(k, k)),
    ).mul_spec(read(rhs_kind, rhs, Position(k, 0)))
}

/// The stored values of the right-hand side after column `k` was
/// eliminated.
pub open spec fn swept_rhs<V: FloatTrait>(
    kind: BasicMatrixType,
    elements: Map<Position, V>,
    rhs_kind: BasicMatrixType,
    rhs: Map<Position, V>,
    k: usize,
    n: usize,
) -> Map<Position, V> {
    Map::new(
        |p: Position| rhs.contains_key(p) || reached_rhs(rhs_kind, k, n, p),
        |p: Position|
            if reached_rhs(rhs_kind, k, n, p) {
                reduced(rhs, p, share_rhs(kind, elements, rhs_kind, rhs, k, p))
            } else {
                rhs[p]
            },
    )
}

/// A system under elimination without pivoting: the stored values of the
/// matrix and of the right-hand side.
pub struct Swept<V> {
    pub elements: Map<Position, V>,
    pub rhs: Map<Position, V>,
}

/// The system after the first `steps` columns of `n` were eliminated;
/// nothing where one of their pivots, with a row below it, was zero.
pub open spec fn forward<V: FloatTrait>(
    kind: BasicMatrixType,
    rhs_kind: BasicMatrixType,
    system: Swept<V>,
    n: usize,
    steps: nat,
) -> Option<Swept<V>>
    decreases steps,
{
    if steps == 0 {
        Some(system)
    } else {
        match forward(kind, rhs_kind, system, n, (steps - 1) as nat) {
            None => None,
            Some(earlier) => {
                let k = (steps - 1) as usize;
                if k + 1 < n && is_zero(read(kind, earlier.elements, Position(k, k))) {
                    None
                } else {
                    Some(
                        Swept {
                            elements: swept(kind, earlier.elements, k, n),
                            rhs: swept_rhs(kind, earlier.elements, rhs_kind, earlier.rhs, k, n),
                        },
                    )
                }
            },
        }
    }
}

/// The right-hand side of row `i` less `row[j] * x[j]` for the columns `j`
/// from `i + 1` to below `upto`, taken from the left, where `x` solves the
/// triangular system.
pub open spec fn rest<V: FloatTrait>(
    kind: BasicMatrixType,
    rhs_kind: BasicMatrixType,
    system: Swept<V>,
    n: usize,
    i: int,
    upto: int,
) -> V
    decreases n - i, upto,
{
    if i < 0 || upto <= i + 1 || upto > n {
        read(rhs_kind, system.rhs, Position(i as usize, 0))
    } else {
        rest(kind, rhs_kind, system, n, i, upto - 1).sub_spec(
            read(kind, system.elements, Position(i as usize, (upto - 1) as usize)).mul_spec(
                unknown(kind, rhs_kind, system, n, upto - 1),
            ),
        )
    }
}

/// The unknown `i` of the triangular system, found by back substitution.
pub open spec fn unknown<V: FloatTrait>(
    kind: BasicMatrixType,
    rhs_kind: BasicMatrixType,
    system: Swept<V>,
    n: usize,
    i: int,
) -> V
    decreases n - i, n + 1,
{
    if i < 0 || i >= n {
        read(rhs_kind, system.rhs, Position(i as usize, 0))
    } else {
        rest(kind, rhs_kind, system, n, i, n as int).div_spec(
            read(kind, system.elements, Position(i as usize, i as usize)),
        )
    }
}

/// The unknowns of the triangular system.
pub open spec fn unknowns<V: FloatTrait>(
    kind: BasicMatrixType,
    rhs_kind: BasicMatrixType,
    system: Swept<V>,
    n: usize,
) -> Seq<V> {
    Seq::new(n as nat, |i: int| unknown(kind, rhs_kind, system, n, i))
}

/// The solution of the system by elimination without pivoting; nothing
/// where a pivot with a row below it is zero.
pub open spec fn solved<V: FloatTrait>(
    kind: BasicMatrixType,
    elements: Map<Position, V>,
    rhs_kind: BasicMatrixType,
    rhs: Map<Position, V>,
    n: usize,
) -> Option<Seq<V>> {
    match forward(kind, rhs_kind, Swept { elements, rhs }, n, (n - 1) as nat) {
        None => None,
        Some(system) => Some(unknowns(kind, rhs_kind, system, n)),
    }
}

/// The solution with zeros added up to the given number of rows.
pub open spec fn padded<V: FloatTrait>(solution: Seq<V>, rows: usize) -> Seq<V> {
    Seq::new(
        rows as nat,
        |i: int|
            if i < solution.len() {
                solution[i]
            } else {
                zero::<V>()
            },
    )
}

/// What the elimination ends in, for a matrix of the given shape that has
/// as many columns as the right-hand side has rows: the listing of the
/// result, or the message of the failure. A matrix with fewer rows than
/// columns and a right-hand side without a column fail for a position
/// outside, unless a first pivot of zero is met before; a zero pivot
/// fails; a right-hand side of more than one column fails at the end.
pub open spec fn outcome<V: FloatTrait>(
    kind: BasicMatrixType,
    elements: Map<Position, V>,
    shape: Shape,
    rhs_kind: BasicMatrixType,
    rhs: Map<Position, V>,
    rhs_columns: usize,
) -> Result<Seq<V>, Seq<char>> {
    if shape.0 < shape.1 {
        if shape.0 >= 2 && is_zero(read(kind, elements, Position(0, 0))) {
            Err(singular_text())
        } else {
            Err(out_of_size_text())
        }
    } else if rhs_columns == 0 {
        if shape.1 >= 2 && is_zero(read(kind, elements, Position(0, 0))) {
            Err(singular_text())
        } else {
            Err(out_of_size_text())
        }
    } else {
        match solved(kind, elements, rhs_kind, rhs, shape.1) {
            None => Err(singular_text()),
            Some(solution) => if rhs_columns > 1 {
                Err(incorrect_number_text())
            } else {
                Ok(padded(solution, shape.0))
            },
        }
    }
}

impl<T: UIntTrait, V: FloatTrait> ExtendedMatrix<T, V> {
    /// What the given place reads as.
    fn entry(basic: &BasicMatrix<T, V>, row: usize, column: usize) -> (r: V)
        requires
            obeys_arithmetic::<V>(),
            basic.in_range(),
            basic.shape().holds(Position(row, column)),
        ensures
            r == read(basic.kind(), basic.elements(), Position(row, column)),
    {
        proof {
            basic.rows_number().lemma_number_bound();
            basic.columns_number().lemma_number_bound();
        }
        let position = MatrixElementPosition::create(T::from_usize(row), T::from_usize(column));
        match basic.copy_element_value_or_zero(position) {
            Ok(v) => v,
            Err(_) => crate::float_trait::zero_value(),
        }
    }

    /// Takes `amount` off the value at the given place.
    fn take_off(basic: &mut BasicMatrix<T, V>, row: usize, column: usize, amount: V)
        requires
            obeys_arithmetic::<V>(),
            old(basic).in_range(),
            old(basic).shape().holds(Position(row, column)),
        ensures
            final(basic).rows_number() == old(basic).rows_number(),
            final(basic).columns_number() == old(basic).columns_number(),
            final(basic).kind() == old(basic).kind(),
            final(basic).elements() == assigned(
                old(basic).kind(),
                old(basic).elements(),
                Position(row, column),
                amount,
                Operation::Subtraction,
            ),
    {
        proof {
            basic.rows_number().lemma_number_bound();
            basic.columns_number().lemma_number_bound();
        }
        let position = MatrixElementPosition::create(T::from_usize(row), T::from_usize(column));
        basic.add_sub_mul_assign_matrix_element_value(position, amount, Operation::Subtraction);
    }

    /// Eliminates column `k` of the system below row `k`.
    fn sweep(lhs: &mut BasicMatrix<T, V>, rhs: &mut BasicMatrix<T, V>, n: usize, k: usize)
        requires
            obeys_arithmetic::<V>(),
            old(lhs).in_range(),
            old(rhs).in_range(),
            old(lhs).shape().0 >= n,
            old(lhs).shape().1 >= n,
            old(rhs).shape().0 == n,
            old(rhs).shape().1 >= 1,
            k < n,
        ensures
            final(lhs).rows_number() == old(lhs).rows_number(),
            final(lhs).columns_number() == old(lhs).columns_number(),
            final(lhs).kind() == old(lhs).kind(),
            final(rhs).rows_number() == old(rhs).rows_number(),
            final(rhs).columns_number() == old(rhs).columns_number(),
            final(rhs).kind() == old(rhs).kind(),
            final(lhs).elements() == swept(old(lhs).kind(), old(lhs).elements(), k, n),
            final(rhs).elements() == swept_rhs(
                old(lhs).kind(),
                old(lhs).elements(),
                old(rhs).kind(),
                old(rhs).elements(),
                k,
                n,
            ),
    {
        let ghost kind = lhs.kind();
        let ghost start = lhs.elements();
        let ghost rhs_kind = rhs.kind();
        let ghost rhs_start = rhs.elements();
        let pivot: V = Self::entry(lhs, k, k);
        let mut i: usize = k + 1;
        assert(lhs.elements() =~= swept_before(kind, start, k, n, i, 0));
        assert(rhs.elements() =~= swept_rhs(kind, start, rhs_kind, rhs_start, k, i));
        while i < n
            invariant
                obeys_arithmetic::<V>(),
                lhs.in_range(),
                rhs.in_range(),
                lhs.shape().0 >= n,
                lhs.shape().1 >= n,
                rhs.shape().0 == n,
                rhs.shape().1 >= 1,
                lhs.rows_number() == old(lhs).rows_number(),
                lhs.columns_number() == old(lhs).columns_number(),
                rhs.rows_number() == old(rhs).rows_number(),
                rhs.columns_number() == old(rhs).columns_number(),
                lhs.kind() == kind,
                rhs.kind() == rhs_kind,
                k < i <= n,
                pivot == read(kind, start, Position(k, k)),
                lhs.elements() == swept_before(kind, start, k, n, i, 0),
                rhs.elements() == swept_rhs(kind, start, rhs_kind, rhs_start, k, i),
            decreases n - i,
        {
            let below: V = Self::entry(lhs, i, k);
            assert(below == read(kind, start, Position(i, k)));
            let coefficient: V = below / pivot;
            let mut j: usize = k + 1;
            assert(lhs.elements() =~= swept_before(kind, start, k, n, i, j));
            while j < n
                invariant
                    obeys_arithmetic::<V>(),
                    lhs.in_range(),
                    lhs.shape().0 >= n,
                lhs.shape().1 >= n,
                    lhs.rows_number() == old(lhs).rows_number(),
                    lhs.columns_number() == old(lhs).columns_number(),
                    lhs.kind() == kind,
                    k < i < n,
                    k < j <= n,
                    coefficient == read(kind, start, Position(i, k)).div_spec(
                        read(kind, start, Position(k, k)),
                    ),
                    lhs.elements() == swept_before(kind, start, k, n, i, j),
                decreases n - j,
            {
                let beside: V = Self::entry(lhs, k, j);
                assert(beside == read(kind, start, Position(k, j)));
                let ghost before = lhs.elements();
                Self::take_off(lhs, i, j, coefficient * beside);
                j += 1;
                assert(lhs.elements() =~= swept_before(kind, start, k, n, i, j));
            }
            let beside: V = Self::entry(rhs, k, 0);
            assert(beside == read(rhs_kind, rhs_start, Position(k, 0)));
            Self::take_off(rhs, i, 0, coefficient * beside);
            i += 1;
            assert(lhs.elements() =~= swept_before(kind, start, k, n, i, 0));
            assert(rhs.elements() =~= swept_rhs(kind, start, rhs_kind, rhs_start, k, i));
        }
        assert(lhs.elements() =~= swept(kind, start, k, n));
    }

    /// Solves `self * x = other` by Gaussian elimination without pivoting,
    /// over as many unknowns as the matrix has columns. The result has as
    /// many rows as the matrix; below the unknowns it is zero. Fails on a
    /// pivot that is zero, on a matrix with fewer rows than columns, and
    /// on a right-hand side without a column or with more than one.
    pub fn direct_solution(&self, other: &Self) -> (r: Result<Self, String>)
        requires
            obeys_arithmetic::<V>(),
            self.basic().in_range(),
            other.basic().in_range(),
            self.basic().shape().1 >= 1,
        ensures
            self.basic().shape().1 != other.basic().shape().0 ==> (r matches Err(e) && e@
                == shapes_text()),
            self.basic().shape().1 == other.basic().shape().0 ==> match outcome(
                self.basic().kind(),
                self.basic().elements(),
                self.basic().shape(),
                other.basic().kind(),
                other.basic().elements(),
                other.basic().shape().1,
            ) {
                Err(text) => r matches Err(e) && e@ == text,
                Ok(solution) => {
                    let shape = Shape(self.basic().shape().0, 1usize);
                    r matches Ok(m) && m.tolerance() == self.tolerance()
                        && m.basic().rows_number() == self.basic().rows_number()
                        && m.basic().columns_number() == other.basic().columns_number()
                        && m.basic().kind() == listing_kind(shape, solution, self.tolerance())
                        && m.basic().elements() == significant_part(
                        shape,
                        solution,
                        self.tolerance(),
                        m.basic().kind(),
                    )
                },
            },
    {
        let found = match self.matrices_dimensions_conformity_check(
            other,
            Operation::Multiplication,
        ) {
            Ok(found) => found,
            Err(e) => {
                return Err(e);
            },
        };
        let shape = found.1;
        let n: usize = found.0.into_usize();
        let rows: usize = shape.0.into_usize();
        let columns: usize = shape.1.into_usize();
        let ghost kind = self.basic().kind();
        let ghost rhs_kind = other.basic().kind();
        let ghost start = Swept {
            elements: self.basic().elements(),
            rhs: other.basic().elements(),
        };
        if rows < n {
            if rows >= 2 && is_zero_value(self.value_at(0, 0)) {
                return Err(String::from_str("Extended matrix: Matrix is singular!"));
            }
            return Err(String::from_str("Basic matrix: Inputted indexes are out of matrix size!"));
        }
        if columns == 0 {
            if n >= 2 && is_zero_value(self.value_at(0, 0)) {
                return Err(String::from_str("Extended matrix: Matrix is singular!"));
            }
            return Err(String::from_str("Basic matrix: Inputted indexes are out of matrix size!"));
        }
        let mut lhs_matrix = self.duplicate();
        let mut rhs_matrix = other.duplicate();
        let mut k: usize = 0;
        while k < n - 1
            invariant
                obeys_arithmetic::<V>(),
                n >= 1,
                k <= n - 1,
                n == self.basic().shape().1,
                rows == self.basic().shape().0,
                rows >= n,
                columns == other.basic().shape().1,
                columns >= 1,
                self.basic().shape().1 == other.basic().shape().0,
                kind == self.basic().kind(),
                rhs_kind == other.basic().kind(),
                start == (Swept {
                    elements: self.basic().elements(),
                    rhs: other.basic().elements(),
                }),
                lhs_matrix.basic().in_range(),
                rhs_matrix.basic().in_range(),
                lhs_matrix.basic().shape() == Shape(rows, n),
                rhs_matrix.basic().shape().0 == n,
                rhs_matrix.basic().shape().1 >= 1,
                lhs_matrix.basic().kind() == kind,
                rhs_matrix.basic().kind() == rhs_kind,
                forward(kind, rhs_kind, start, n, k as nat) == Some(
                    Swept {
                        elements: lhs_matrix.basic().elements(),
                        rhs: rhs_matrix.basic().elements(),
                    },
                ),
            decreases n - 1 - k,
        {
            let pivot: V = lhs_matrix.value_at(k, k);
            if is_zero_value(pivot) {
                proof {
                    assert(forward(kind, rhs_kind, start, n, (k + 1) as nat).is_none());
                    lemma_forward_fails(kind, rhs_kind, start, n, (k + 1) as nat, (n - 1) as nat);
                }
                return Err(String::from_str("Extended matrix: Matrix is singular!"));
            }
            lhs_matrix.sweep_with(&mut rhs_matrix, n, k);
            k += 1;
        }
        let ghost system = Swept {
            elements: lhs_matrix.basic().elements(),
            rhs: rhs_matrix.basic().elements(),
        };
        let mut elements_values: Vec<V> = zeros(rows);
        let mut i: usize = n;
        while i > 0
            invariant
                obeys_arithmetic::<V>(),
                lhs_matrix.basic().in_range(),
                rhs_matrix.basic().in_range(),
                lhs_matrix.basic().shape() == Shape(rows, n),
                rows >= n,
                rhs_matrix.basic().shape().0 == n,
                rhs_matrix.basic().shape().1 >= 1,
                lhs_matrix.basic().kind() == kind,
                rhs_matrix.basic().kind() == rhs_kind,
                system == (Swept {
                    elements: lhs_matrix.basic().elements(),
                    rhs: rhs_matrix.basic().elements(),
                }),
                elements_values.len() == rows,
                i <= n,
                forall|r: int|
                    i <= r < n ==> elements_values@[r] == unknown(kind, rhs_kind, system, n, r),
                forall|r: int| n <= r < rows ==> elements_values@[r] == zero::<V>(),
            decreases i,
        {
            i -= 1;
            let mut sum: V = rhs_matrix.value_at(i, 0);
            let mut j: usize = i + 1;
            while j < n
                invariant
                    obeys_arithmetic::<V>(),
                    lhs_matrix.basic().in_range(),
                    lhs_matrix.basic().shape() == Shape(rows, n),
                    rows >= n,
                    lhs_matrix.basic().kind() == kind,
                    system == (Swept {
                        elements: lhs_matrix.basic().elements(),
                        rhs: rhs_matrix.basic().elements(),
                    }),
                    elements_values.len() == rows,
                    i < j <= n,
                    forall|r: int|
                        i < r < n ==> elements_values@[r] == unknown(kind, rhs_kind, system, n, r),
                    sum == rest(kind, rhs_kind, system, n, i as int, j as int),
                decreases n - j,
            {
                let beside: V = lhs_matrix.value_at(i, j);
                sum = sum - beside * elements_values[j];
                j += 1;
            }
            let diagonal: V = lhs_matrix.value_at(i, i);
            elements_values[i] = sum / diagonal;
        }
        assert(elements_values@ =~= padded(unknowns(kind, rhs_kind, system, n), rows));
        if columns > 1 {
            return Err(String::from_str("Basic matrix: Incorrect number of elements!"));
        }
        assert(forward(kind, rhs_kind, start, n, (n - 1) as nat) == Some(system));
        assert(shape.0 == self.basic().rows_number());
        assert(shape.1 == other.basic().columns_number());
        assert(shape.1.number() == 1);
        assert(shape.0.number() * shape.1.number() == rows) by (nonlinear_arith)
            requires
                shape.0.number() == rows,
                shape.1.number() == 1,
        ;
        let result = ExtendedMatrix::create(
            shape.0,
            shape.1,
            elements_values,
            self.copy_tolerance(),
        );
        result
    }

    /// Eliminates column `k` of this matrix and of the right-hand side.
    fn sweep_with(&mut self, rhs: &mut Self, n: usize, k: usize)
        requires
            obeys_arithmetic::<V>(),
            old(self).basic().in_range(),
            old(rhs).basic().in_range(),
            old(self).basic().shape().0 >= n,
            old(self).basic().shape().1 >= n,
            old(rhs).basic().shape().0 == n,
            old(rhs).basic().shape().1 >= 1,
            k < n,
        ensures
            final(self).tolerance() == old(self).tolerance(),
            final(rhs).tolerance() == old(rhs).tolerance(),
            final(self).basic().rows_number() == old(self).basic().rows_number(),
            final(self).basic().columns_number() == old(self).basic().columns_number(),
            final(self).basic().kind() == old(self).basic().kind(),
            final(rhs).basic().rows_number() == old(rhs).basic().rows_number(),
            final(rhs).basic().columns_number() == old(rhs).basic().columns_number(),
            final(rhs).basic().kind() == old(rhs).basic().kind(),
            final(self).basic().elements() == swept(
                old(self).basic().kind(),
                old(self).basic().elements(),
                k,
                n,
            ),
            final(rhs).basic().elements() == swept_rhs(
                old(self).basic().kind(),
                old(self).basic().elements(),
                old(rhs).basic().kind(),
                old(rhs).basic().elements(),
                k,
                n,
            ),
    {
        let (lhs_basic, rhs_basic) = (self.basic_mut(), rhs.basic_mut());
        Self::sweep(lhs_basic, rhs_basic, n, k);
    }
}

/// Once a pivot was zero, no later step is reached.
pub proof fn lemma_forward_fails<V: FloatTrait>(
    kind: BasicMatrixType,
    rhs_kind: BasicMatrixType,
    system: Swept<V>,
    n: usize,
    steps: nat,
    more: nat,
)
    requires
        steps <= more,
        forward(kind, rhs_kind, system, n, steps).is_none(),
    ensures
        forward(kind, rhs_kind, system, n, more).is_none(),
    decreases more,
{
    if steps < more {
        lemma_forward_fails(kind, rhs_kind, system, n, steps, (more - 1) as nat);
    }
}

} // verus!
