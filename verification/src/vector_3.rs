use vstd::prelude::*;
use vstd::std_specs::ops::{AddSpec, DivSpec, MulSpec, NegSpec, SubSpec};
use vstd::string::StringExecFns;
use core::ops::Neg;
use crate::basic_operations_trait::{scaled, BasicOperationsTrait};
use crate::flat::dense_from_flat;
use crate::matrix::Matrix;
use crate::elements::Elements;
use crate::float_trait::{
    greater, is_greater, is_less, is_zero, is_zero_value, less, obeys_arithmetic, one, one_value,
    zero, zero_value, FloatTrait,
};
use crate::into_matrix_trait::IntoMatrixTrait;
use crate::position::Position;
use crate::shape::Shape;
use crate::vector::column_vector;
use crate::vector_trait::{
    components, dot, is_vector, length, upright, upright_shape, with_column, VectorTrait,
};

verus! {

/// A vector of three components, upright or lying.
#[derive(Debug, PartialEq, Clone)]
pub struct Vector3<V> {
    pub shape: Shape,
    pub elements: Elements<V>,
}

impl<V> BasicOperationsTrait for Vector3<V> {
    type Value = V;

    open spec fn shape(&self) -> Shape {
        self.shape
    }

    open spec fn elements(&self) -> Map<Position, V> {
        self.elements@
    }

    fn get_shape(&self) -> (r: &Shape) {
        &self.shape
    }

    fn get_mut_shape(&mut self) -> (r: &mut Shape) {
        &mut self.shape
    }

    fn get_elements(&self) -> (r: &Elements<V>) {
        &self.elements
    }

    fn get_mut_elements(&mut self) -> (r: &mut Elements<V>) {
        &mut self.elements
    }
}

impl<V> IntoMatrixTrait for Vector3<V> {

}

impl<V> VectorTrait for Vector3<V> {

}

/// The cross product of two vectors of three components.
pub open spec fn cross<V: FloatTrait>(a: Seq<V>, b: Seq<V>) -> Seq<V> {
    seq![
        a[1].mul_spec(b[2]).sub_spec(a[2].mul_spec(b[1])),
        a[2].mul_spec(b[0]).sub_spec(a[0].mul_spec(b[2])),
        a[0].mul_spec(b[1]).sub_spec(a[1].mul_spec(b[0])),
    ]
}

/// "Vectors with different lenghts could not be aligned"
pub open spec fn different_lengths_text() -> Seq<char> {
    "Vectors with different lenghts could not be aligned"@
}

/// The cosine of the angle between two vectors, from their dot product and
/// their norms.
pub open spec fn cosine<V: FloatTrait>(dot: V, lhs_norm: V, rhs_norm: V) -> V {
    dot.div_spec(lhs_norm.mul_spec(rhs_norm))
}

/// The lengths differ by more than the tolerance, taken against the
/// smaller of the two.
pub open spec fn lengths_differ<V: FloatTrait>(lhs_norm: V, rhs_norm: V, rel_tol: V) -> bool {
    if less(lhs_norm, rhs_norm) {
        greater(rhs_norm.sub_spec(lhs_norm).div_spec(lhs_norm), rel_tol)
    } else {
        greater(lhs_norm.sub_spec(rhs_norm).div_spec(rhs_norm), rel_tol)
    }
}

/// The stored values of a vector after the cross product with the
/// components `other` and the scaling by `factor`.
pub open spec fn crossed_and_scaled<V: FloatTrait>(
    shape: Shape,
    elements: Map<Position, V>,
    other: Seq<V>,
    factor: V,
) -> Map<Position, V> {
    scaled(
        with_column(upright(shape, elements), cross(components(shape, elements, 3), other)),
        factor,
    )
}

/// The rotation matrix, row by row, that turns the vector with the
/// components `a` into the direction of the one with the components `b`:
/// the identity where the cosine is within `abs_tol` of one; a half turn
/// where it is within `abs_tol` of minus one, about the second axis where
/// both vectors lie along the third and about the third otherwise; and
/// else the rotation about `axis`, the cross product of the two.
pub open spec fn rotation_listing<V: FloatTrait>(
    a: Seq<V>,
    b: Seq<V>,
    axis: Seq<V>,
    c: V,
    a_norm: V,
    b_norm: V,
    axis_norm: V,
    abs_tol: V,
) -> Seq<V> {
    let o = zero::<V>();
    let i = one::<V>();
    let m = one::<V>().neg_spec();
    if less(i.sub_spec(c), abs_tol) {
        seq![i, o, o, o, i, o, o, o, i]
    } else if less(i.add_spec(c), abs_tol) {
        if is_zero(a[0]) && is_zero(a[1]) && is_zero(b[0]) && is_zero(b[1]) {
            seq![m, o, o, o, i, o, o, o, m]
        } else {
            seq![m, o, o, o, m, o, o, o, m]
        }
    } else {
        let x = axis[0].div_spec(axis_norm);
        let y = axis[1].div_spec(axis_norm);
        let z = axis[2].div_spec(axis_norm);
        let s = axis_norm.div_spec(a_norm.mul_spec(b_norm));
        let t = i.sub_spec(c);
        seq![
            t.mul_spec(x).mul_spec(x).add_spec(c),
            t.mul_spec(x).mul_spec(y).sub_spec(z.mul_spec(s)),
            t.mul_spec(x).mul_spec(z).add_spec(y.mul_spec(s)),
            t.mul_spec(x).mul_spec(y).add_spec(z.mul_spec(s)),
            t.mul_spec(y).mul_spec(y).add_spec(c),
            t.mul_spec(y).mul_spec(z).sub_spec(x.mul_spec(s)),
            t.mul_spec(x).mul_spec(z).sub_spec(y.mul_spec(s)),
            t.mul_spec(y).mul_spec(z).add_spec(x.mul_spec(s)),
            t.mul_spec(z).mul_spec(z).add_spec(c),
        ]
    }
}

/// The cosine of the angle between two vectors, from their dot product and
/// their norms.
pub fn cosine_from_norms<V: FloatTrait>(dot: V, lhs_norm: V, rhs_norm: V) -> (r: V)
    requires
        obeys_arithmetic::<V>(),
    ensures
        r == cosine(dot, lhs_norm, rhs_norm),
{
    dot / (lhs_norm * rhs_norm)
}

/// Whether two vectors with the given norms are of the same length within
/// the tolerance.
pub fn check_lengths_from_norms<V: FloatTrait>(lhs_norm: V, rhs_norm: V, rel_tol: V) -> (r: Result<
    (),
    String,
>)
    requires
        obeys_arithmetic::<V>(),
    ensures
        r.is_ok() == !lengths_differ(lhs_norm, rhs_norm, rel_tol),
        r matches Err(e) ==> e@ == different_lengths_text(),
{
    let (min_length, max_length) = if is_less(lhs_norm, rhs_norm) {
        (lhs_norm, rhs_norm)
    } else {
        (rhs_norm, lhs_norm)
    };
    if is_greater((max_length - min_length) / min_length, rel_tol) {
        return Err(String::from_str("Vectors with different lenghts could not be aligned"));
    }
    Ok(())
}

impl<V: FloatTrait> Vector3<V> {
    /// The upright vector with the given components.
    pub fn create(components: &[V; 3]) -> (r: Self)
        ensures
            r.shape() == Shape(3usize, 1usize),
            r.elements() == column_vector(components@),
    {
        let mut elements: Elements<V> = Elements::new();
        elements.insert(Position(0, 0), components[0]);
        elements.insert(Position(1, 0), components[1]);
        elements.insert(Position(2, 0), components[2]);
        assert(elements@ =~= column_vector(components@));
        Vector3 { shape: Shape(3, 1), elements }
    }

    /// The three components, zero where nothing is stored.
    pub fn get_components(&self) -> (r: [V; 3])
        requires
            obeys_arithmetic::<V>(),
        ensures
            r@ == components(self.shape(), self.elements(), 3),
    {
        let values = self.get_components_vec(3);
        let r: [V; 3] = [values[0], values[1], values[2]];
        assert(r@ =~= components(self.shape(), self.elements(), 3));
        r
    }

    /// The cross product with `other`, as an upright vector that keeps
    /// what `self` stores outside its first column.
    pub fn cross_product(&self, other: &Self) -> (r: Self)
        requires
            obeys_arithmetic::<V>(),
        ensures
            r.shape() == upright_shape(self.shape()),
            r.elements() == with_column(
                upright(self.shape(), self.elements()),
                cross(
                    components(self.shape(), self.elements(), 3),
                    components(other.shape(), other.elements(), 3),
                ),
            ),
    {
        let a = self.get_components_vec(3);
        let b = other.get_components_vec(3);
        let mut product: Vec<V> = Vec::new();
        product.push(a[1] * b[2] - a[2] * b[1]);
        product.push(a[2] * b[0] - a[0] * b[2]);
        product.push(a[0] * b[1] - a[1] * b[0]);
        assert(product@ =~= cross(a@, b@));
        let mut result = if self.shape.0 == 1 {
            self.transpose()
        } else {
            Vector3 { shape: self.shape, elements: self.elements.clone() }
        };
        result.set_column(&product);
        result
    }
    /// The part of the vector that stands at a right angle to `other`,
    /// whose norm is given: the cross product with `other`, divided by
    /// minus the norm, and of that again the cross product with `other`,
    /// divided by the norm.
    pub fn projection_perpendicular_with_norm(&self, other: &Self, other_norm: V) -> (r: Self)
        requires
            obeys_arithmetic::<V>(),
        ensures
            r.shape() == upright_shape(upright_shape(self.shape())),
            r.elements() == crossed_and_scaled(
                upright_shape(self.shape()),
                crossed_and_scaled(
                    self.shape(),
                    self.elements(),
                    components(other.shape(), other.elements(), 3),
                    one::<V>().neg_spec().div_spec(other_norm),
                ),
                components(other.shape(), other.elements(), 3),
                one::<V>().div_spec(other_norm),
            ),
    {
        let one: V = one_value();
        self.cross_product(other).multiply_by_scalar(one.neg() / other_norm).cross_product(
            other,
        ).multiply_by_scalar(one / other_norm)
    }

    /// The rotation matrix that turns the vector into the direction of
    /// `other`, from the norms of the two and of their cross product. Fails
    /// where the lengths of the two differ by more than `rel_tol`.
    pub fn rotation_matrix_with_norms(
        &self,
        other: &Self,
        self_norm: V,
        other_norm: V,
        axis_norm: V,
        rel_tol: V,
        abs_tol: V,
    ) -> (r: Result<Matrix<V>, String>)
        requires
            obeys_arithmetic::<V>(),
            is_vector(self.shape()),
            is_vector(other.shape()),
            length(self.shape()) == length(other.shape()),
        ensures
            r.is_ok() == !lengths_differ(self_norm, other_norm, rel_tol),
            r matches Err(e) ==> e@ == different_lengths_text(),
            r matches Ok(m) ==> m.shape() == Shape(3usize, 3usize) && m.elements()
                == dense_from_flat(
                Shape(3usize, 3usize),
                rotation_listing(
                    components(self.shape(), self.elements(), 3),
                    components(other.shape(), other.elements(), 3),
                    cross(
                        components(self.shape(), self.elements(), 3),
                        components(other.shape(), other.elements(), 3),
                    ),
                    cosine(
                        dot(
                            components(
                                self.shape(),
                                self.elements(),
                                length(self.shape()) as nat,
                            ),
                            components(
                                other.shape(),
                                other.elements(),
                                length(self.shape()) as nat,
                            ),
                            length(self.shape()) as nat,
                        ),
                        self_norm,
                        other_norm,
                    ),
                    self_norm,
                    other_norm,
                    axis_norm,
                    abs_tol,
                ),
            ),
    {
        if let Err(e) = check_lengths_from_norms(self_norm, other_norm, rel_tol) {
            return Err(e);
        }
        let product: V = match self.dot_product(other) {
            Ok(v) => v,
            Err(_) => zero_value(),
        };
        let c: V = cosine_from_norms(product, self_norm, other_norm);
        let o: V = zero_value();
        let i: V = one_value();
        let m: V = i.neg();
        let a = self.get_components_vec(3);
        let b = other.get_components_vec(3);
        let ghost axis_components = cross(a@, b@);
        let listing: [V; 9] = if is_less(i - c, abs_tol) {
            [i, o, o, o, i, o, o, o, i]
        } else if is_less(i + c, abs_tol) {
            if is_zero_value(a[0]) && is_zero_value(a[1]) && is_zero_value(b[0]) && is_zero_value(
                b[1],
            ) {
                [m, o, o, o, i, o, o, o, m]
            } else {
                [m, o, o, o, m, o, o, o, m]
            }
        } else {
            let x: V = (a[1] * b[2] - a[2] * b[1]) / axis_norm;
            let y: V = (a[2] * b[0] - a[0] * b[2]) / axis_norm;
            let z: V = (a[0] * b[1] - a[1] * b[0]) / axis_norm;
            let s: V = axis_norm / (self_norm * other_norm);
            let t: V = i - c;
            [
                t * x * x + c,
                t * x * y - z * s,
                t * x * z + y * s,
                t * x * y + z * s,
                t * y * y + c,
                t * y * z - x * s,
                t * x * z - y * s,
                t * y * z + x * s,
                t * z * z + c,
            ]
        };
        assert(listing@ =~= rotation_listing(
            a@,
            b@,
            axis_components,
            c,
            self_norm,
            other_norm,
            axis_norm,
            abs_tol,
        ));
        Ok(Matrix::create(3, 3, listing.as_slice()))
    }
}

} // verus!
