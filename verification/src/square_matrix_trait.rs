use vstd::prelude::*;
use vstd::std_specs::ops::{MulSpec, NegSpec};
use core::ops::Neg;
use crate::basic_operations_trait::{conform, value_or_zero, BasicOperationsTrait};
use crate::elements::Elements;
use crate::elimination::{
    diagonal_product, gep_determinant, gep_solution, grid, is_order,
    is_square, lup_decomposed, lup_solution, lup_solved, sign, unit, Lup,
};
use crate::float_trait::{
    is_nan_value, is_zero, is_zero_value, obeys_arithmetic, one_value, zero, zero_value,
    FloatTrait,
};
use crate::gep::{eliminate_gep, row_scales, substitute_gep};
use crate::lup::{decompose_lup, lup_of, substitute_lup};
use crate::messages::{
    ill_conditioned_message, ill_conditioned_text, not_conform_message, not_conform_text,
    not_vector_message, not_vector_text,
};
use crate::operation::Operation;
use crate::position::Position;
use crate::shape::Shape;
use crate::vector_trait::{
    components, is_vector, upright, upright_shape, with_column, VectorTrait,
};

verus! {

/// The first `n` rows and columns of a matrix, zero where nothing is
/// stored.
pub open spec fn dense<V: FloatTrait>(elements: Map<Position, V>, n: nat) -> Seq<Seq<V>> {
    Seq::new(
        n,
        |i: int|
            Seq::new(n, |j: int| value_or_zero(elements, Position(i as usize, j as usize))),
    )
}

/// The value at `position` of the inverse that a decomposition gives:
/// column by column the solution for a unit vector.
pub open spec fn inverse_value<V: FloatTrait>(state: Lup<V>, position: Position) -> V {
    lup_solved(state, unit::<V>(state.rows.len(), position.1 as int))[position.0 as int]
}

/// The inverse that a decomposition gives, zeros left out.
pub open spec fn inverse_elements<V: FloatTrait>(state: Lup<V>) -> Map<Position, V> {
    Map::new(
        |p: Position|
            p.0 < state.rows.len() && p.1 < state.rows.len() && !is_zero(inverse_value(state, p)),
        |p: Position| inverse_value(state, p),
    )
}

/// Whether a system with the matrix shape `a`, the right-hand side shape
/// `b` and the shape `x` of the unknowns can be solved at all, and if not,
/// why.
pub open spec fn system_fault(a: Shape, b: Shape, x: Shape) -> Option<Seq<char>> {
    if !is_vector(b) || !is_vector(x) {
        Some(not_vector_text())
    } else if !conform(a, upright_shape(b), Operation::Multiplication) || !conform(
        upright_shape(b),
        upright_shape(x),
        Operation::Addition,
    ) {
        Some(not_conform_text())
    } else {
        None
    }
}

/// The first `n` rows and columns of `matrix` as a vector of rows.
pub fn dense_rows<M>(matrix: &M, n: usize) -> (a: Vec<Vec<M::Value>>) where
    M: BasicOperationsTrait,
    M::Value: FloatTrait,

    requires
        obeys_arithmetic::<M::Value>(),
    ensures
        grid(a@) == dense(matrix.elements(), n as nat),
        is_square(grid(a@), n as nat),
{
    let mut a: Vec<Vec<M::Value>> = Vec::new();
    let mut i: usize = 0;
    while i < n
        invariant
            obeys_arithmetic::<M::Value>(),
            i <= n,
            a.len() == i,
            forall|r: int| 0 <= r < i ==> (#[trigger] a@[r])@ == dense(matrix.elements(), n as nat)[r],
        decreases n - i,
    {
        let mut row: Vec<M::Value> = Vec::new();
        let mut j: usize = 0;
        while j < n
            invariant
                obeys_arithmetic::<M::Value>(),
                i < n,
                j <= n,
                row@ == dense(matrix.elements(), n as nat)[i as int].take(j as int),
            decreases n - j,
        {
            let value = matrix.get_element_value_or_zero(&Position(i, j));
            row.push(value);
            j += 1;
            assert(row@ =~= dense(matrix.elements(), n as nat)[i as int].take(j as int));
        }
        assert(row@ =~= dense(matrix.elements(), n as nat)[i as int]);
        a.push(row);
        i += 1;
    }
    assert(grid(a@) =~= dense(matrix.elements(), n as nat));
    a
}

/// `n` zeros.
pub fn zeros<V: FloatTrait>(n: usize) -> (r: Vec<V>)
    requires
        obeys_arithmetic::<V>(),
    ensures
        r@ == Seq::new(n as nat, |i: int| zero::<V>()),
{
    let mut r: Vec<V> = Vec::new();
    let mut i: usize = 0;
    while i < n
        invariant
            obeys_arithmetic::<V>(),
            i <= n,
            r@ == Seq::new(i as nat, |i: int| zero::<V>()),
        decreases n - i,
    {
        r.push(zero_value());
        i += 1;
        assert(r@ =~= Seq::new(i as nat, |i: int| zero::<V>()));
    }
    r
}

/// Checks the shapes of a system before it is solved.
fn check_system(a: Shape, b: Shape, x: Shape) -> (r: Result<(), String>)
    ensures
        r.is_ok() == system_fault(a, b, x).is_none(),
        r matches Err(e) ==> Some(e@) == system_fault(a, b, x),
{
    if (b.0 != 1 && b.1 != 1) || (x.0 != 1 && x.1 != 1) {
        return Err(not_vector_message());
    }
    let upright_b = if b.0 == 1 {
        Shape(b.1, 1)
    } else {
        b
    };
    let upright_x = if x.0 == 1 {
        Shape(x.1, 1)
    } else {
        x
    };
    if a.1 != upright_b.0 || upright_b.0 != upright_x.0 || upright_b.1 != upright_x.1 {
        return Err(not_conform_message());
    }
    Ok(())
}

/// The solvers of a square matrix. They read a position where nothing is
/// stored as zero, and work on the leading rows and columns, as many as
/// the matrix has rows.
pub trait SquareMatrixTrait: BasicOperationsTrait {
    /// The determinant by Gaussian elimination with scaled partial
    /// pivoting; zero where the matrix is ill conditioned.
    fn determinant(&self, rel_tol: Self::Value) -> (r: Self::Value) where Self::Value: FloatTrait
        requires
            obeys_arithmetic::<Self::Value>(),
            self.shape().0 >= 1,
        ensures
            r == gep_determinant(dense(self.elements(), self.shape().0 as nat), rel_tol),
    {
        let n: usize = self.get_shape().0;
        let mut a = dense_rows(self, n);
        let mut mock_b: Vec<Self::Value> = zeros(n);
        let mut s = row_scales(&a, n);
        match eliminate_gep(&mut a, &mut s, n, &mut mock_b, rel_tol) {
            Ok(pn) => {
                let mut det: Self::Value = one_value();
                let mut i: usize = 0;
                while i < n
                    invariant
                        obeys_arithmetic::<Self::Value>(),
                        is_square(grid(a@), n as nat),
                        i <= n,
                        det == diagonal_product(grid(a@), i as nat),
                    decreases n - i,
                {
                    assert(grid(a@)[i as int].len() == n);
                    det = det * a[i][i];
                    i += 1;
                }
                let one: Self::Value = one_value();
                let sign: Self::Value = if pn % 2 == 0 {
                    one
                } else {
                    one.neg()
                };
                det = det * sign;
                if is_nan_value(det) {
                    return zero_value();
                }
                det
            },
            Err(_) => zero_value(),
        }
    }

    /// Solves `self * x = b` by Gaussian elimination with scaled partial
    /// pivoting. `b` and `x` are vectors, lying or upright; `x` is stood
    /// upright and receives the solution in its first column.
    fn gauss_gep<VT1, VT2>(&self, b: &VT1, x: &mut VT2, rel_tol: Self::Value) -> (r: Result<
        (),
        String,
    >) where
        VT1: VectorTrait<Value = Self::Value>,
        VT2: VectorTrait<Value = Self::Value> + Clone,
        Self::Value: FloatTrait,

        requires
            obeys_arithmetic::<Self::Value>(),
            self.shape().0 >= 1,
        ensures
            match system_fault(self.shape(), b.shape(), old(x).shape()) {
                Some(text) => r matches Err(e) && e@ == text && final(x).shape() == old(x).shape()
                    && final(x).elements() == old(x).elements(),
                None => match gep_solution(
                    dense(self.elements(), self.shape().0 as nat),
                    components(b.shape(), b.elements(), self.shape().0 as nat),
                    rel_tol,
                ) {
                    None => r matches Err(e) && e@ == ill_conditioned_text() && final(x).shape()
                        == upright_shape(old(x).shape()) && final(x).elements() == upright(
                        old(x).shape(),
                        old(x).elements(),
                    ),
                    Some(solution) => r.is_ok() && final(x).shape() == upright_shape(
                        old(x).shape(),
                    ) && final(x).elements() == with_column(
                        upright(old(x).shape(), old(x).elements()),
                        solution,
                    ),
                },
            },
    {
        let checked = check_system(*self.get_shape(), *b.get_shape(), *x.get_shape());
        if let Err(e) = checked {
            return Err(e);
        }
        if x.get_shape().0 == 1 {
            let stood = x.transpose();
            *x = stood;
        }
        let n: usize = self.get_shape().0;
        let mut a = dense_rows(self, n);
        let mut rhs: Vec<Self::Value> = b.get_components_vec(n);
        let mut s = row_scales(&a, n);
        match eliminate_gep(&mut a, &mut s, n, &mut rhs, rel_tol) {
            Err(e) => Err(e),
            Ok(_) => {
                let mut solution: Vec<Self::Value> = zeros(n);
                substitute_gep(&a, n, &rhs, &mut solution);
                x.set_column(&solution);
                Ok(())
            },
        }
    }

    /// Solves `self * x = b` by LU decomposition with scaled partial
    /// pivoting. `b` and `x` are vectors, lying or upright; `x` is stood
    /// upright and receives the solution in its first column.
    fn lup_decomp<VT1, VT2>(&self, b: &VT1, x: &mut VT2, rel_tol: Self::Value) -> (r: Result<
        (),
        String,
    >) where
        VT1: VectorTrait<Value = Self::Value>,
        VT2: VectorTrait<Value = Self::Value> + Clone,
        Self::Value: FloatTrait,

        requires
            obeys_arithmetic::<Self::Value>(),
            self.shape().0 >= 1,
        ensures
            match system_fault(self.shape(), b.shape(), old(x).shape()) {
                Some(text) => r matches Err(e) && e@ == text && final(x).shape() == old(x).shape()
                    && final(x).elements() == old(x).elements(),
                None => match lup_solution(
                    dense(self.elements(), self.shape().0 as nat),
                    components(b.shape(), b.elements(), self.shape().0 as nat),
                    rel_tol,
                ) {
                    None => r matches Err(e) && e@ == ill_conditioned_text() && final(x).shape()
                        == upright_shape(old(x).shape()) && final(x).elements() == upright(
                        old(x).shape(),
                        old(x).elements(),
                    ),
                    Some(solution) => r.is_ok() && final(x).shape() == upright_shape(
                        old(x).shape(),
                    ) && final(x).elements() == with_column(
                        upright(old(x).shape(), old(x).elements()),
                        solution,
                    ),
                },
            },
    {
        let checked = check_system(*self.get_shape(), *b.get_shape(), *x.get_shape());
        if let Err(e) = checked {
            return Err(e);
        }
        if x.get_shape().0 == 1 {
            let stood = x.transpose();
            *x = stood;
        }
        let n: usize = self.get_shape().0;
        let mut a = dense_rows(self, n);
        let mut rhs: Vec<Self::Value> = b.get_components_vec(n);
        let mut o: Vec<usize> = vec![0usize; n];
        let mut s: Vec<Self::Value> = zeros(n);
        match decompose_lup(&mut a, n, rel_tol, &mut o, &mut s, None) {
            Err(_) => Err(ill_conditioned_message()),
            Ok(_) => {
                let mut solution: Vec<Self::Value> = zeros(n);
                substitute_lup(&a, &o, n, &mut rhs, &mut solution);
                x.set_column(&solution);
                Ok(())
            },
        }
    }
    /// The inverse by LU decomposition with scaled partial pivoting, found
    /// column by column as the solution for a unit vector; zeros are not
    /// stored. `x` receives the last column in its first column.
    fn inverse<VT>(&self, x: &mut VT, rel_tol: Self::Value) -> (r: Result<Self, String>) where
        VT: VectorTrait<Value = Self::Value>,
        Self: Clone,
        Self::Value: FloatTrait,

        requires
            obeys_arithmetic::<Self::Value>(),
            self.shape().0 >= 1,
        ensures
            final(x).shape() == old(x).shape(),
            match lup_decomposed(dense(self.elements(), self.shape().0 as nat), rel_tol, None) {
                None => r matches Err(e) && e@ == ill_conditioned_text() && final(x).elements()
                    == old(x).elements(),
                Some(state) => r matches Ok(inverse) && inverse.shape() == self.shape()
                    && inverse.elements() == inverse_elements(state) && final(x).elements()
                    == with_column(
                    old(x).elements(),
                    lup_solved(state, unit::<Self::Value>(state.rows.len(), state.rows.len() - 1)),
                ),
            },
    {
        let n: usize = self.get_shape().0;
        let mut a = dense_rows(self, n);
        let mut o: Vec<usize> = vec![0usize; n];
        let mut s: Vec<Self::Value> = zeros(n);
        if let Err(_) = decompose_lup(&mut a, n, rel_tol, &mut o, &mut s, None) {
            return Err(ill_conditioned_message());
        }
        let ghost state = lup_of(a@, o@, s@);
        assert(state.rows.len() == n);
        let mut elements: Elements<Self::Value> = Elements::new();
        let mut solution: Vec<Self::Value> = zeros(n);
        let mut i: usize = 0;
        while i < n
            invariant
                obeys_arithmetic::<Self::Value>(),
                is_square(grid(a@), n as nat),
                is_order(o@, n as nat),
                state == lup_of(a@, o@, s@),
                state.rows.len() == n,
                n >= 1,
                i <= n,
                solution.len() == n,
                i >= 1 ==> solution@ == lup_solved(state, unit::<Self::Value>(n as nat, i - 1)),
                elements@ == inverse_elements(state).restrict(
                    Set::new(|p: Position| p.1 < i),
                ),
            decreases n - i,
        {
            let mut b: Vec<Self::Value> = Vec::new();
            let mut j: usize = 0;
            while j < n
                invariant
                    obeys_arithmetic::<Self::Value>(),
                    j <= n,
                    i < n,
                    b@ == unit::<Self::Value>(n as nat, i as int).take(j as int),
                decreases n - j,
            {
                if i == j {
                    b.push(one_value());
                } else {
                    b.push(zero_value());
                }
                j += 1;
                assert(b@ =~= unit::<Self::Value>(n as nat, i as int).take(j as int));
            }
            assert(b@ =~= unit::<Self::Value>(n as nat, i as int));
            substitute_lup(&a, &o, n, &mut b, &mut solution);
            assert(solution@ == lup_solved(state, unit::<Self::Value>(n as nat, i as int)));
            let mut j: usize = 0;
            while j < n
                invariant
                    obeys_arithmetic::<Self::Value>(),
                    j <= n,
                    i < n,
                    state.rows.len() == n,
                    solution.len() == n,
                    solution@ == lup_solved(state, unit::<Self::Value>(n as nat, i as int)),
                    elements@ == inverse_elements(state).restrict(
                        Set::new(|p: Position| p.1 < i || (p.1 == i && p.0 < j)),
                    ),
                decreases n - j,
            {
                let value = solution[j];
                if !is_zero_value(value) {
                    elements.insert(Position(j, i), value);
                }
                j += 1;
                assert(elements@ =~= inverse_elements(state).restrict(
                    Set::new(|p: Position| p.1 < i || (p.1 == i && p.0 < j)),
                ));
            }
            i += 1;
            assert(elements@ =~= inverse_elements(state).restrict(
                Set::new(|p: Position| p.1 < i),
            ));
        }
        assert(elements@ =~= inverse_elements(state));
        x.set_column(&solution);
        let mut result = self.clone();
        *result.get_mut_elements() = elements;
        *result.get_mut_shape() = *self.get_shape();
        Ok(result)
    }
}

} // verus!
