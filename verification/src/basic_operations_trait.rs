use vstd::prelude::*;
use vstd::std_specs::ops::{AddSpec, MulSpec, SubSpec};
use crate::elements::{lists, Elements};
use crate::float_trait::{obeys_arithmetic, zero, zero_value, FloatTrait};
use crate::matrix::Matrix;
use crate::messages::{
    absent_message, absent_text, few_columns_message, few_columns_text, few_rows_message,
    few_rows_text, not_conform_message, not_conform_text,
};
use crate::rearrangement::{among, lemma_among_step, rearrange, rearranged, Rearrangement};
use crate::operation::Operation;
use crate::position::Position;
use crate::shape::Shape;

verus! {

/// What a position reads as: the stored value, or zero where nothing is
/// stored.
pub open spec fn value_or_zero<V: FloatTrait>(elements: Map<Position, V>, position: Position) -> V {
    if elements.contains_key(position) {
        elements[position]
    } else {
        zero::<V>()
    }
}

/// The two shapes admit the operation: equal shapes for addition and
/// subtraction, left columns equal to right rows for multiplication.
pub open spec fn conform(lhs: Shape, rhs: Shape, operation: Operation) -> bool {
    match operation {
        Operation::Addition | Operation::Subtraction => lhs == rhs,
        Operation::Multiplication => lhs.1 == rhs.0,
    }
}

/// The positions of `shape` that a row-by-row walk has passed when it stands
/// at (`row`, `column`).
pub open spec fn scanned(shape: Shape, row: usize, column: usize) -> Set<Position> {
    Set::new(
        |position: Position|
            shape.holds(position) && (position.0 < row || (position.0 == row && position.1
                < column)),
    )
}

/// Every stored value multiplied by `scalar`.
pub open spec fn scaled<V: FloatTrait>(elements: Map<Position, V>, scalar: V) -> Map<Position, V> {
    Map::new(
        |position: Position| elements.contains_key(position),
        |position: Position| elements[position].mul_spec(scalar),
    )
}

/// Every stored value at its mirror position.
pub open spec fn transposed<V>(elements: Map<Position, V>) -> Map<Position, V> {
    rearranged(elements, Rearrangement::Transposed)
}

/// The stored values of a sum or a difference: what the left side stores,
/// with each value that the right side stores added to or subtracted from
/// what the left side reads as there.
pub open spec fn combined<V: FloatTrait>(
    lhs: Map<Position, V>,
    rhs: Map<Position, V>,
    subtract: bool,
) -> Map<Position, V> {
    Map::new(
        |p: Position| lhs.contains_key(p) || rhs.contains_key(p),
        |p: Position|
            if rhs.contains_key(p) {
                if subtract {
                    value_or_zero(lhs, p).sub_spec(rhs[p])
                } else {
                    value_or_zero(lhs, p).add_spec(rhs[p])
                }
            } else {
                lhs[p]
            },
    )
}

/// The sum or difference as far as the first `upto` entries of the right
/// side are taken in.
pub open spec fn combined_from<V: FloatTrait>(
    lhs: Map<Position, V>,
    rhs: Map<Position, V>,
    subtract: bool,
    entries: Seq<(Position, V)>,
    upto: int,
) -> Map<Position, V> {
    Map::new(
        |p: Position| lhs.contains_key(p) || (rhs.contains_key(p) && among(entries, upto, p)),
        |p: Position|
            if rhs.contains_key(p) && among(entries, upto, p) {
                if subtract {
                    value_or_zero(lhs, p).sub_spec(rhs[p])
                } else {
                    value_or_zero(lhs, p).add_spec(rhs[p])
                }
            } else {
                lhs[p]
            },
    )
}

/// Multiplies every stored value by `scalar`.
pub fn scale<V: FloatTrait>(elements: &Elements<V>, scalar: V) -> (r: Elements<V>)
    requires
        obeys_arithmetic::<V>(),
    ensures
        r@ == scaled(elements@, scalar),
{
    let entries = elements.entries();
    let mut result: Elements<V> = Elements::new();
    let mut i: usize = 0;
    while i < entries.len()
        invariant
            obeys_arithmetic::<V>(),
            lists(entries@, elements@),
            i <= entries.len(),
            result@ == scaled(elements@, scalar).restrict(
                Set::new(|p: Position| among(entries@, i as int, p)),
            ),
        decreases entries.len() - i,
    {
        let product: V = entries[i].1 * scalar;
        result.insert(entries[i].0, product);
        proof {
            assert forall|p: Position|
                among(entries@, i + 1, p) == (among(entries@, i as int, p) || entries@[i as int].0
                    == p) by {
                lemma_among_step(entries@, i as int, p);
            }
        }
        i += 1;
        assert(result@ =~= scaled(elements@, scalar).restrict(
            Set::new(|p: Position| among(entries@, i as int, p)),
        ));
    }
    assert(result@ =~= scaled(elements@, scalar));
    result
}

/// Adds every value of `rhs` to what `lhs` reads as at its position, or
/// subtracts it from it.
pub fn combine<V: FloatTrait>(lhs: &Elements<V>, rhs: &Elements<V>, subtract: bool) -> (r:
    Elements<V>)
    requires
        obeys_arithmetic::<V>(),
    ensures
        r@ == combined(lhs@, rhs@, subtract),
{
    let entries = rhs.entries();
    let mut result: Elements<V> = lhs.clone();
    assert(result@ =~= combined_from(lhs@, rhs@, subtract, entries@, 0));
    let mut i: usize = 0;
    while i < entries.len()
        invariant
            obeys_arithmetic::<V>(),
            lists(entries@, rhs@),
            i <= entries.len(),
            result@ == combined_from(lhs@, rhs@, subtract, entries@, i as int),
        decreases entries.len() - i,
    {
        let position: Position = entries[i].0;
        let own: V = match lhs.get(&position) {
            Some(v) => *v,
            None => zero_value(),
        };
        let value: V = if subtract {
            own - entries[i].1
        } else {
            own + entries[i].1
        };
        result.insert(position, value);
        proof {
            assert forall|p: Position|
                among(entries@, i + 1, p) == (among(entries@, i as int, p) || entries@[i as int].0
                    == p) by {
                lemma_among_step(entries@, i as int, p);
            }
            assert(among(entries@, i + 1, position));
        }
        i += 1;
        assert(result@ =~= combined_from(lhs@, rhs@, subtract, entries@, i as int));
    }
    assert(result@ =~= combined(lhs@, rhs@, subtract));
    result
}

/// The sum of `lhs(row, k) * rhs(k, column)` over `k` below `upto`, taken
/// from the left, starting from zero.
pub open spec fn inner_product<V: FloatTrait>(
    lhs: Map<Position, V>,
    rhs: Map<Position, V>,
    position: Position,
    upto: nat,
) -> V
    decreases upto,
{
    if upto == 0 {
        zero::<V>()
    } else {
        inner_product(lhs, rhs, position, (upto - 1) as nat).add_spec(
            value_or_zero(lhs, Position(position.0, (upto - 1) as usize)).mul_spec(
                value_or_zero(rhs, Position((upto - 1) as usize, position.1)),
            ),
        )
    }
}

/// The stored values of a product of the given shape: every position
/// holds the inner product of its row of the left side and its column of
/// the right side.
pub open spec fn multiplied<V: FloatTrait>(
    shape: Shape,
    inner: nat,
    lhs: Map<Position, V>,
    rhs: Map<Position, V>,
) -> Map<Position, V> {
    Map::new(|p: Position| shape.holds(p), |p: Position| inner_product(lhs, rhs, p, inner))
}

/// Positional access to a matrix: its shape and its stored values.
pub trait BasicOperationsTrait: Sized {
    type Value;

    /// The shape of the matrix.
    spec fn shape(&self) -> Shape;

    /// The stored values of the matrix, by position.
    spec fn elements(&self) -> Map<Position, Self::Value>;

    fn get_shape(&self) -> (r: &Shape)
        ensures
            *r == self.shape(),
    ;

    fn get_mut_shape(&mut self) -> (r: &mut Shape)
        ensures
            *r == old(self).shape(),
            final(self).shape() == *final(r),
            final(self).elements() == old(self).elements(),
    ;

    fn get_elements(&self) -> (r: &Elements<Self::Value>)
        ensures
            r@ == self.elements(),
    ;

    fn get_mut_elements(&mut self) -> (r: &mut Elements<Self::Value>)
        ensures
            r@ == old(self).elements(),
            final(self).elements() == final(r)@,
            final(self).shape() == old(self).shape(),
    ;

    /// The value stored at `position`; an error where nothing is stored.
    fn get_element_value(&self, position: &Position) -> (r: Result<&Self::Value, String>)
        ensures
            r.is_ok() == self.elements().contains_key(*position),
            r matches Ok(v) ==> *v == self.elements()[*position],
            r matches Err(e) ==> e@ == absent_text(),
    {
        match self.get_elements().get(position) {
            Some(v) => Ok(v),
            None => Err(absent_message()),
        }
    }

    /// What `position` reads as: the stored value, or zero.
    fn get_element_value_or_zero(&self, position: &Position) -> (r: Self::Value) where
        Self::Value: FloatTrait,

        requires
            obeys_arithmetic::<Self::Value>(),
        ensures
            r == value_or_zero(self.elements(), *position),
    {
        match self.get_elements().get(position) {
            Some(v) => *v,
            None => zero_value(),
        }
    }


    /// The matrix with every stored value multiplied by `scalar`. Values
    /// stored outside the shape are left out.
    /// The matrix with every stored value multiplied by `scalar`.
    fn multiply_by_scalar(&self, scalar: Self::Value) -> (r: Self) where
        Self::Value: FloatTrait,
        Self: Clone,

        requires
            obeys_arithmetic::<Self::Value>(),
        ensures
            r.shape() == self.shape(),
            r.elements() == scaled(self.elements(), scalar),
    {
        let shape: Shape = *self.get_shape();
        let elements = scale(self.get_elements(), scalar);
        let mut result = self.clone();
        *result.get_mut_elements() = elements;
        *result.get_mut_shape() = shape;
        result
    }

    /// The transposed matrix: every stored value at its mirror position.
    fn transpose(&self) -> (r: Self) where Self::Value: Copy, Self: Clone
        ensures
            r.shape() == Shape(self.shape().1, self.shape().0),
            r.elements() == transposed(self.elements()),
    {
        let shape: Shape = *self.get_shape();
        let elements = rearrange(self.get_elements(), Rearrangement::Transposed);
        let mut result = self.clone();
        *result.get_mut_elements() = elements;
        *result.get_mut_shape() = Shape(shape.1, shape.0);
        result
    }
}

/// Operations that give a new matrix.
pub trait MatrixOperationsTrait: BasicOperationsTrait {
    /// The matrix without the given row; the rows below it move up. Fails
    /// where there is no such row.
    fn remove_row(&self, row: usize) -> (r: Result<Matrix<Self::Value>, String>) where
        Self::Value: Copy,

        requires
            row < usize::MAX,
        ensures
            r.is_ok() == (row < self.shape().0),
            r matches Err(e) ==> e@ == few_rows_text((row + 1) as nat),
            r matches Ok(m) ==> m.shape() == Shape((self.shape().0 - 1) as usize, self.shape().1)
                && m.elements() == rearranged(self.elements(), Rearrangement::WithoutRow(row)),
    {
        let shape: Shape = *self.get_shape();
        if row >= shape.0 {
            return Err(few_rows_message(row + 1));
        }
        let shape = Shape(shape.0 - 1, shape.1);
        let elements = rearrange(self.get_elements(), Rearrangement::WithoutRow(row));
        Ok(Matrix { shape, elements })
    }

    /// The matrix without the given column; the columns right of it move
    /// left. Fails where there is no such column.
    fn remove_column(&self, column: usize) -> (r: Result<Matrix<Self::Value>, String>) where
        Self::Value: Copy,

        requires
            column < usize::MAX,
        ensures
            r.is_ok() == (column < self.shape().1),
            r matches Err(e) ==> e@ == few_columns_text((column + 1) as nat),
            r matches Ok(m) ==> m.shape() == Shape(self.shape().0, (self.shape().1 - 1) as usize)
                && m.elements() == rearranged(self.elements(), Rearrangement::WithoutColumn(column)),
    {
        let shape: Shape = *self.get_shape();
        if column >= shape.1 {
            return Err(few_columns_message(column + 1));
        }
        let shape = Shape(shape.0, shape.1 - 1);
        let elements = rearrange(self.get_elements(), Rearrangement::WithoutColumn(column));
        Ok(Matrix { shape, elements })
    }

    /// Whether the shapes of `self` and `other` admit `operation`.
    fn shape_conformity_check<M>(&self, other: &M, operation: Operation) -> (r: Result<
        (),
        String,
    >) where M: BasicOperationsTrait
        ensures
            r.is_ok() == conform(self.shape(), other.shape(), operation),
            r matches Err(e) ==> e@ == not_conform_text(),
    {
        let lhs: Shape = *self.get_shape();
        let rhs: Shape = *other.get_shape();
        let ok: bool = match operation {
            Operation::Addition | Operation::Subtraction => lhs.0 == rhs.0 && lhs.1 == rhs.1,
            Operation::Multiplication => lhs.1 == rhs.0,
        };
        if ok {
            Ok(())
        } else {
            Err(not_conform_message())
        }
    }
    /// The sum or the difference of two matrices of the same shape.

    /// The sum or the difference of two matrices of the same shape.
    fn add_or_subtract<M>(&self, other: &M, subtract: bool) -> (r: Result<Self, String>) where
        M: BasicOperationsTrait<Value = Self::Value>,
        Self::Value: FloatTrait,
        Self: Clone,

        requires
            obeys_arithmetic::<Self::Value>(),
        ensures
            r.is_ok() == (self.shape() == other.shape()),
            r matches Err(e) ==> e@ == not_conform_text(),
            r matches Ok(m) ==> m.shape() == self.shape() && m.elements() == combined(
                self.elements(),
                other.elements(),
                subtract,
            ),
    {
        if let Err(e) = self.shape_conformity_check(other, Operation::Addition) {
            return Err(e);
        }
        let shape: Shape = *self.get_shape();
        let elements = combine(self.get_elements(), other.get_elements(), subtract);
        let mut result = self.clone();
        *result.get_mut_elements() = elements;
        *result.get_mut_shape() = shape;
        Ok(result)
    }

    fn add<M>(&self, other: &M) -> (r: Result<Self, String>) where
        M: BasicOperationsTrait<Value = Self::Value>,
        Self::Value: FloatTrait,
        Self: Clone,

        requires
            obeys_arithmetic::<Self::Value>(),
        ensures
            r.is_ok() == (self.shape() == other.shape()),
            r matches Err(e) ==> e@ == not_conform_text(),
            r matches Ok(m) ==> m.shape() == self.shape() && m.elements() == combined(
                self.elements(),
                other.elements(),
                false,
            ),
    {
        self.add_or_subtract(other, false)
    }

    /// The difference of two matrices of the same shape: what `self`
    /// stores, with each value that `other` stores subtracted from what
    /// `self` reads as there.
    fn subtract<M>(&self, other: &M) -> (r: Result<Self, String>) where
        M: BasicOperationsTrait<Value = Self::Value>,
        Self::Value: FloatTrait,
        Self: Clone,

        requires
            obeys_arithmetic::<Self::Value>(),
        ensures
            r.is_ok() == (self.shape() == other.shape()),
            r matches Err(e) ==> e@ == not_conform_text(),
            r matches Ok(m) ==> m.shape() == self.shape() && m.elements() == combined(
                self.elements(),
                other.elements(),
                true,
            ),
    {
        self.add_or_subtract(other, true)
    }

    /// The product of two matrices, the first with as many columns as the
    /// second has rows. Every position of the product is stored.
    fn multiply<M>(&self, other: &M) -> (r: Result<Matrix<Self::Value>, String>) where
        M: BasicOperationsTrait<Value = Self::Value>,
        Self::Value: FloatTrait,

        requires
            obeys_arithmetic::<Self::Value>(),
        ensures
            r.is_ok() == (self.shape().1 == other.shape().0),
            r matches Err(e) ==> e@ == not_conform_text(),
            r matches Ok(m) ==> m.shape() == Shape(self.shape().0, other.shape().1)
                && m.elements() == multiplied(
                m.shape(),
                self.shape().1 as nat,
                self.elements(),
                other.elements(),
            ),
    {
        if let Err(e) = self.shape_conformity_check(other, Operation::Multiplication) {
            return Err(e);
        }
        let inner: usize = self.get_shape().1;
        let shape = Shape(self.get_shape().0, other.get_shape().1);
        let ghost full = multiplied(shape, inner as nat, self.elements(), other.elements());
        let mut elements: Elements<Self::Value> = Elements::new();
        let mut row: usize = 0;
        while row < shape.0
            invariant
                obeys_arithmetic::<Self::Value>(),
                full == multiplied(shape, inner as nat, self.elements(), other.elements()),
                row <= shape.0,
                elements@ == full.restrict(scanned(shape, row, 0)),
            decreases shape.0 - row,
        {
            let mut column: usize = 0;
            while column < shape.1
                invariant
                    obeys_arithmetic::<Self::Value>(),
                    full == multiplied(shape, inner as nat, self.elements(), other.elements()),
                    row < shape.0,
                    column <= shape.1,
                    elements@ == full.restrict(scanned(shape, row, column)),
                decreases shape.1 - column,
            {
                let mut value: Self::Value = zero_value();
                let mut k: usize = 0;
                while k < inner
                    invariant
                        obeys_arithmetic::<Self::Value>(),
                        k <= inner,
                        value == inner_product(
                            self.elements(),
                            other.elements(),
                            Position(row, column),
                            k as nat,
                        ),
                    decreases inner - k,
                {
                    let lhs = self.get_element_value_or_zero(&Position(row, k));
                    let rhs = other.get_element_value_or_zero(&Position(k, column));
                    value = value + lhs * rhs;
                    k += 1;
                }
                elements.insert(Position(row, column), value);
                column += 1;
                assert(elements@ =~= full.restrict(scanned(shape, row, column)));
            }
            row += 1;
            assert(elements@ =~= full.restrict(scanned(shape, row, 0)));
        }
        assert(elements@ =~= full);
        Ok(Matrix { shape, elements })
    }
}

impl<T: BasicOperationsTrait> MatrixOperationsTrait for T {

}

} // verus!