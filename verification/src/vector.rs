use vstd::prelude::*;

verus! {

/// A point or displacement in the plane, in whole simulation units.
#[derive(Clone, Copy, Debug, PartialEq, Eq, Structural)]
pub struct Vec2 {
    pub x: i32,
    pub y: i32,
}

/// Square of an integer.
pub open spec fn square(a: int) -> int {
    a * a
}

/// Squared Euclidean distance between two points.
pub open spec fn distance_squared(a: Vec2, b: Vec2) -> int {
    square(a.x - b.x) + square(a.y - b.y)
}

/// A bound on the magnitude of a sum or difference of two `i32` values.
pub const SPAN: i128 = 0x1_0000_0000;

/// `a * b` for two such sums or differences, with the bounds of the product.
pub(crate) fn span_product(a: i128, b: i128) -> (p: i128)
    requires
        -SPAN <= a <= SPAN,
        -SPAN <= b <= SPAN,
    ensures
        p == a * b,
        -SPAN * SPAN <= p <= SPAN * SPAN,
{
    assert(-SPAN * SPAN <= a * b <= SPAN * SPAN) by (nonlinear_arith)
        requires
            -SPAN <= a <= SPAN,
            -SPAN <= b <= SPAN,
    ;
    a * b
}

/// The point `(x, y)`.
pub fn vec2(x: i32, y: i32) -> (v: Vec2)
    ensures
        v == (Vec2 { x, y }),
{
    Vec2 { x, y }
}

impl Vec2 {
    /// Squared distance from `self` to `other`.
    pub fn distance_squared(self, other: Vec2) -> (d: i128)
        ensures
            d == distance_squared(self, other),
            0 <= d <= 2 * SPAN * SPAN,
    {
        let dx: i128 = self.x as i128 - other.x as i128;
        let dy: i128 = self.y as i128 - other.y as i128;
        let xx = span_product(dx, dx);
        let yy = span_product(dy, dy);
        assert(dx * dx >= 0 && dy * dy >= 0) by (nonlinear_arith);
        xx + yy
    }
}

/// `v` held to the range of coordinates: a value beyond it stops at its end.
pub open spec fn saturate(v: int) -> i32 {
    if v < i32::MIN {
        i32::MIN
    } else if v > i32::MAX {
        i32::MAX
    } else {
        v as i32
    }
}

/// The quotient of `a` by a positive `b`, rounded toward zero.
pub open spec fn quotient(a: int, b: int) -> int {
    if a >= 0 {
        a / b
    } else {
        -((-a) / b)
    }
}

/// `v` held to the range of coordinates.
pub(crate) fn saturated(v: i128) -> (s: i32)
    ensures
        s == saturate(v as int),
{
    if v < i32::MIN as i128 {
        i32::MIN
    } else if v > i32::MAX as i128 {
        i32::MAX
    } else {
        v as i32
    }
}

} // verus!
