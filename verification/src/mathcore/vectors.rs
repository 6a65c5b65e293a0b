//! `mathcore::vectors` submodule implements [`Vector2Int`], the two-dimensional vector with
//! integer coordinates.
//!

use vstd::prelude::*;

verus! {

/// [`Vector2Int`] struct represents two-dimensional vector and two-dimensional point with `i32` coordinates on a plane.
///
#[derive(Copy, Clone, Debug, PartialEq, Eq, Structural)]
pub struct Vector2Int {
    /// X component of vector.
    ///
    pub x: i32,
    /// Y component of vector.
    ///
    pub y: i32,
}

/// Type alias for [`Vector2Int`].
///
pub type PointInt = Vector2Int;

/// Type alias for [`Vector2Int`].
///
pub type VertexInt = PointInt;

/// Dot product of two vectors.
///
pub open spec fn dot(a: Vector2Int, b: Vector2Int) -> int {
    a.x * b.x + a.y * b.y
}

/// Cross product (the z component) of two vectors.
///
pub open spec fn cross(a: Vector2Int, b: Vector2Int) -> int {
    a.x * b.y - a.y * b.x
}

impl Vector2Int {
    /// Zero vector.
    ///
    pub fn zero() -> (v: Vector2Int)
        ensures
            v == (Vector2Int { x: 0, y: 0 }),
    {
        Vector2Int { x: 0, y: 0 }
    }

    /// Vector with coordinates equal to one.
    ///
    pub fn one() -> (v: Vector2Int)
        ensures
            v == (Vector2Int { x: 1, y: 1 }),
    {
        Vector2Int { x: 1, y: 1 }
    }

    /// Returns coordinates of the vector as an array.
    ///
    pub fn as_array(self) -> (coordinates: [i32; 2])
        ensures
            coordinates@ == seq![self.x, self.y],
    {
        let coordinates = [self.x, self.y];
        assert(coordinates@ =~= seq![self.x, self.y]);
        coordinates
    }

    /// Calculates dot product of two vectors.
    ///
    pub fn dot_product(self, other: Vector2Int) -> (product: i32)
        requires
            i32::MIN <= self.x * other.x <= i32::MAX,
            i32::MIN <= self.y * other.y <= i32::MAX,
            i32::MIN <= dot(self, other) <= i32::MAX,
        ensures
            product == dot(self, other),
    {
        self.x * other.x + self.y * other.y
    }

    /// Calculates cross product of two vectors (the z component of their product in space).
    ///
    pub fn cross_product(self, other: Vector2Int) -> (product: i32)
        requires
            i32::MIN <= self.x * other.y <= i32::MAX,
            i32::MIN <= self.y * other.x <= i32::MAX,
            i32::MIN <= cross(self, other) <= i32::MAX,
        ensures
            product == cross(self, other),
    {
        (self.x * other.y) - (self.y * other.x)
    }

    /// Returns squared magnitude of the vector.
    ///
    pub fn sqr_magnitude(&self) -> (magnitude: i32)
        requires
            self.x * self.x <= i32::MAX,
            self.y * self.y <= i32::MAX,
            dot(*self, *self) <= i32::MAX,
        ensures
            magnitude == dot(*self, *self),
    {
        assert(self.x * self.x >= 0) by (nonlinear_arith);
        assert(self.y * self.y >= 0) by (nonlinear_arith);
        self.dot_product(*self)
    }
}

/// The coordinates `x` and `y` fit in `i32`.
///
pub open spec fn fits(x: int, y: int) -> bool {
    i32::MIN <= x <= i32::MAX && i32::MIN <= y <= i32::MAX
}

impl core::ops::Neg for Vector2Int {
    type Output = Vector2Int;

    /// Opposite vector.
    ///
    fn neg(self) -> (v: Vector2Int)
        ensures
            v.x == -self.x,
            v.y == -self.y,
    {
        Vector2Int { x: -self.x, y: -self.y }
    }
}

impl vstd::std_specs::ops::NegSpecImpl for Vector2Int {
    open spec fn obeys_neg_spec() -> bool {
        true
    }

    open spec fn neg_req(self) -> bool {
        fits(-self.x, -self.y)
    }

    open spec fn neg_spec(self) -> Vector2Int {
        Vector2Int { x: (-self.x) as i32, y: (-self.y) as i32 }
    }
}

impl core::ops::Add<Vector2Int> for Vector2Int {
    type Output = Vector2Int;

    /// Sum of two vectors.
    ///
    fn add(self, rhs: Vector2Int) -> (v: Vector2Int)
        ensures
            v.x == self.x + rhs.x,
            v.y == self.y + rhs.y,
    {
        Vector2Int { x: self.x + rhs.x, y: self.y + rhs.y }
    }
}

impl vstd::std_specs::ops::AddSpecImpl<Vector2Int> for Vector2Int {
    open spec fn obeys_add_spec() -> bool {
        true
    }

    open spec fn add_req(self, rhs: Vector2Int) -> bool {
        fits(self.x + rhs.x, self.y + rhs.y)
    }

    open spec fn add_spec(self, rhs: Vector2Int) -> Vector2Int {
        Vector2Int { x: (self.x + rhs.x) as i32, y: (self.y + rhs.y) as i32 }
    }
}

impl core::ops::Sub<Vector2Int> for Vector2Int {
    type Output = Vector2Int;

    /// Difference of two vectors.
    ///
    fn sub(self, rhs: Vector2Int) -> (v: Vector2Int)
        ensures
            v.x == self.x - rhs.x,
            v.y == self.y - rhs.y,
    {
        Vector2Int { x: self.x - rhs.x, y: self.y - rhs.y }
    }
}

impl vstd::std_specs::ops::SubSpecImpl<Vector2Int> for Vector2Int {
    open spec fn obeys_sub_spec() -> bool {
        true
    }

    open spec fn sub_req(self, rhs: Vector2Int) -> bool {
        fits(self.x - rhs.x, self.y - rhs.y)
    }

    open spec fn sub_spec(self, rhs: Vector2Int) -> Vector2Int {
        Vector2Int { x: (self.x - rhs.x) as i32, y: (self.y - rhs.y) as i32 }
    }
}

impl core::ops::Mul<i32> for Vector2Int {
    type Output = Vector2Int;

    /// Vector scaled by `rhs`.
    ///
    fn mul(self, rhs: i32) -> (v: Vector2Int)
        ensures
            v.x == self.x * rhs,
            v.y == self.y * rhs,
    {
        Vector2Int { x: self.x * rhs, y: self.y * rhs }
    }
}

impl vstd::std_specs::ops::MulSpecImpl<i32> for Vector2Int {
    open spec fn obeys_mul_spec() -> bool {
        true
    }

    open spec fn mul_req(self, rhs: i32) -> bool {
        fits(self.x * rhs, self.y * rhs)
    }

    open spec fn mul_spec(self, rhs: i32) -> Vector2Int {
        Vector2Int { x: (self.x * rhs) as i32, y: (self.y * rhs) as i32 }
    }
}

/// Law: subtracting a vector undoes adding it.
///
pub proof fn law_sub_undoes_add(a: Vector2Int, b: Vector2Int)
    requires
        fits(a.x + b.x, a.y + b.y),
    ensures
        fits((a.x + b.x) - b.x, (a.y + b.y) - b.y),
        (a.x + b.x) - b.x == a.x,
        (a.y + b.y) - b.y == a.y,
        cross(a, b) == -cross(b, a),
        dot(a, b) == dot(b, a),
{
    assert(a.x * b.y == b.y * a.x) by (nonlinear_arith);
    assert(a.y * b.x == b.x * a.y) by (nonlinear_arith);
    assert(a.x * b.x == b.x * a.x) by (nonlinear_arith);
    assert(a.y * b.y == b.y * a.y) by (nonlinear_arith);
}

} // verus!
