use vstd::prelude::*;
use vstd::std_specs::ops::{AddSpec, MulSpec};
use crate::basic_operations_trait::{transposed, value_or_zero, BasicOperationsTrait};
use crate::elements::lists;
use crate::float_trait::{obeys_arithmetic, zero, zero_value, FloatTrait};
use crate::into_matrix_trait::IntoMatrixTrait;
use crate::messages::{
    not_conform_message, not_conform_text, not_vector_message, not_vector_text,
};
use crate::position::Position;
use crate::shape::Shape;

verus! {

/// A shape with a single row or a single column.
pub open spec fn is_vector(shape: Shape) -> bool {
    shape.0 == 1 || shape.1 == 1
}

/// The shape of a vector stood upright: a single row becomes a single
/// column.
pub open spec fn upright_shape(shape: Shape) -> Shape {
    if shape.0 == 1 {
        Shape(shape.1, 1)
    } else {
        shape
    }
}

/// The stored values of a vector stood upright.
pub open spec fn upright<V>(shape: Shape, elements: Map<Position, V>) -> Map<Position, V> {
    if shape.0 == 1 {
        transposed(elements)
    } else {
        elements
    }
}

/// The first `n` components of a vector, zero where nothing is stored.
pub open spec fn components<V: FloatTrait>(
    shape: Shape,
    elements: Map<Position, V>,
    n: nat,
) -> Seq<V> {
    Seq::new(
        n,
        |i: int|
            if shape.0 == 1 {
                value_or_zero(elements, Position(0, i as usize))
            } else {
                value_or_zero(elements, Position(i as usize, 0))
            },
    )
}

/// The stored values with the first column replaced by `column`.
pub open spec fn with_column<V>(elements: Map<Position, V>, column: Seq<V>) -> Map<Position, V> {
    Map::new(
        |p: Position| elements.contains_key(p) || (p.1 == 0 && p.0 < column.len()),
        |p: Position|
            if p.1 == 0 && p.0 < column.len() {
                column[p.0 as int]
            } else {
                elements[p]
            },
    )
}

/// The number of components of a vector of the given shape.
pub open spec fn length(shape: Shape) -> usize {
    if shape.0 == 1 {
        shape.1
    } else {
        shape.0
    }
}

/// The sum of `a[k] * b[k]` over `k` below `upto`, taken from the left,
/// starting from zero.
pub open spec fn dot<V: FloatTrait>(a: Seq<V>, b: Seq<V>, upto: nat) -> V
    decreases upto,
{
    if upto == 0 {
        zero::<V>()
    } else {
        dot(a, b, (upto - 1) as nat).add_spec(a[upto - 1].mul_spec(b[upto - 1]))
    }
}

/// The sum of the squares of the values of the first `upto` entries of a
/// list, taken from the first entry on, starting from zero.
pub open spec fn squares<V: FloatTrait>(entries: Seq<(Position, V)>, upto: nat) -> V
    decreases upto,
{
    if upto == 0 {
        zero::<V>()
    } else {
        squares(entries, (upto - 1) as nat).add_spec(
            entries[upto - 1].1.mul_spec(entries[upto - 1].1),
        )
    }
}

/// A matrix with a single row or a single column.
pub trait VectorTrait: IntoMatrixTrait {
    /// Whether the shape is that of a vector.
    fn vector_shape_conformity_check(&self) -> (r: Result<(), String>)
        ensures
            r.is_ok() == is_vector(self.shape()),
            r matches Err(e) ==> e@ == not_vector_text(),
    {
        let shape: Shape = *self.get_shape();
        if shape.0 != 1 && shape.1 != 1 {
            return Err(not_vector_message());
        }
        Ok(())
    }

    /// The first `n` components, zero where nothing is stored.
    fn get_components_vec(&self, n: usize) -> (r: Vec<Self::Value>) where Self::Value: FloatTrait
        requires
            obeys_arithmetic::<Self::Value>(),
        ensures
            r@ == components(self.shape(), self.elements(), n as nat),
    {
        let lying: bool = self.get_shape().0 == 1;
        let mut values: Vec<Self::Value> = Vec::new();
        let mut i: usize = 0;
        while i < n
            invariant
                obeys_arithmetic::<Self::Value>(),
                lying == (self.shape().0 == 1),
                i <= n,
                values@ == components(self.shape(), self.elements(), i as nat),
            decreases n - i,
        {
            let position = if lying {
                Position(0, i)
            } else {
                Position(i, 0)
            };
            let value = self.get_element_value_or_zero(&position);
            values.push(value);
            i += 1;
            assert(values@ =~= components(self.shape(), self.elements(), i as nat));
        }
        values
    }

    /// The number of components.
    fn get_length(&self) -> (r: usize)
        ensures
            r == length(self.shape()),
    {
        let shape: Shape = *self.get_shape();
        if shape.0 == 1 {
            shape.1
        } else {
            shape.0
        }
    }

    /// The dot product of two vectors with the same number of components,
    /// each lying or upright.
    fn dot_product(&self, other: &Self) -> (r: Result<Self::Value, String>) where
        Self::Value: FloatTrait,

        requires
            obeys_arithmetic::<Self::Value>(),
        ensures
            r.is_ok() == (is_vector(self.shape()) && is_vector(other.shape()) && length(
                self.shape(),
            ) == length(other.shape())),
            r matches Err(e) ==> e@ == (if is_vector(self.shape()) && is_vector(other.shape()) {
                not_conform_text()
            } else {
                not_vector_text()
            }),
            r matches Ok(v) ==> v == dot(
                components(self.shape(), self.elements(), length(self.shape()) as nat),
                components(other.shape(), other.elements(), length(self.shape()) as nat),
                length(self.shape()) as nat,
            ),
    {
        if let Err(e) = self.vector_shape_conformity_check() {
            return Err(e);
        }
        if let Err(e) = other.vector_shape_conformity_check() {
            return Err(e);
        }
        let n: usize = self.get_length();
        if n != other.get_length() {
            return Err(not_conform_message());
        }
        let a = self.get_components_vec(n);
        let b = other.get_components_vec(n);
        let mut sum: Self::Value = zero_value();
        let mut k: usize = 0;
        while k < n
            invariant
                obeys_arithmetic::<Self::Value>(),
                a.len() == n,
                b.len() == n,
                k <= n,
                sum == dot(a@, b@, k as nat),
            decreases n - k,
        {
            sum = sum + a[k] * b[k];
            k += 1;
        }
        Ok(sum)
    }

    /// The sum of the squares of the stored values, each taken once, in
    /// the order of some listing of them, starting from zero: the square
    /// of the norm.
    fn sum_of_squares(&self) -> (r: Result<Self::Value, String>) where Self::Value: FloatTrait
        requires
            obeys_arithmetic::<Self::Value>(),
        ensures
            r.is_ok() == is_vector(self.shape()),
            r matches Err(e) ==> e@ == not_vector_text(),
            r matches Ok(v) ==> exists|listed: Seq<(Position, Self::Value)>| #[trigger]
                lists(listed, self.elements()) && v == squares(listed, listed.len()),
    {
        if let Err(e) = self.vector_shape_conformity_check() {
            return Err(e);
        }
        let entries = self.get_elements().entries();
        let mut sum: Self::Value = zero_value();
        let mut k: usize = 0;
        while k < entries.len()
            invariant
                obeys_arithmetic::<Self::Value>(),
                k <= entries.len(),
                sum == squares(entries@, k as nat),
            decreases entries.len() - k,
        {
            let value: Self::Value = entries[k].1;
            sum = sum + value * value;
            k += 1;
        }
        assert(lists(entries@, self.elements()));
        Ok(sum)
    }

    /// Writes `column` into the first column.
    fn set_column(&mut self, column: &Vec<Self::Value>) where Self::Value: Copy
        ensures
            final(self).shape() == old(self).shape(),
            final(self).elements() == with_column(old(self).elements(), column@),
    {
        let ghost before = self.elements();
        assert(self.elements() =~= with_column(before, column@.take(0)));
        let mut i: usize = 0;
        while i < column.len()
            invariant
                i <= column.len(),
                self.shape() == old(self).shape(),
                before == old(self).elements(),
                self.elements() == with_column(before, column@.take(i as int)),
            decreases column.len() - i,
        {
            let value = column[i];
            let ghost earlier = self.elements();
            let elements = self.get_mut_elements();
            elements.insert(Position(i, 0), value);
            i += 1;
            assert(self.elements() =~= with_column(before, column@.take(i as int)));
        }
        assert(column@.take(i as int) =~= column@);
    }
}

} // verus!
