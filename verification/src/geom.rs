//! Plain geometric value types over the rational scalar: points, vectors,
//! rectangles, triangles, line segments, lines, line equations, affine
//! transforms and the cubic segment produced by degree elevation.

use vstd::prelude::*;
use crate::rat::{Frac, Rat, rat_wf, rat_bounded, rat_eq, in_i128};

verus! {

/// Specification-level point: a pair of rational values.
pub ghost struct RPoint {
    pub x: Rat,
    pub y: Rat,
}

pub open spec fn rpoint_wf(p: RPoint) -> bool {
    rat_wf(p.x) && rat_wf(p.y)
}

pub open spec fn rpoint_bounded(p: RPoint, b: int) -> bool {
    rat_bounded(p.x, b) && rat_bounded(p.y, b)
}

pub open spec fn rpoint_eq(p: RPoint, q: RPoint) -> bool {
    rat_eq(p.x, q.x) && rat_eq(p.y, q.y)
}

/// A 2d point with exact rational coordinates.
#[derive(Clone, Copy, Debug)]
pub struct Point {
    pub x: Frac,
    pub y: Frac,
}

impl View for Point {
    type V = RPoint;

    open spec fn view(&self) -> RPoint {
        RPoint { x: self.x@, y: self.y@ }
    }
}

impl Point {
    pub open spec fn wf(&self) -> bool {
        rpoint_wf(self@)
    }

    pub open spec fn bounded(&self, b: int) -> bool {
        rpoint_bounded(self@, b)
    }

    pub fn new(x: Frac, y: Frac) -> (r: Point)
        ensures
            r@ == (RPoint { x: x@, y: y@ }),
    {
        Point { x, y }
    }

    /// Exact equality of the two points as pairs of rational values.
    pub fn equals(&self, other: &Point) -> (r: bool)
        requires
            self.wf(),
            other.wf(),
            in_i128(self@.x.n * other@.x.d),
            in_i128(other@.x.n * self@.x.d),
            in_i128(self@.y.n * other@.y.d),
            in_i128(other@.y.n * self@.y.d),
        ensures
            r == rpoint_eq(self@, other@),
    {
        self.x.equals(&other.x) && self.y.equals(&other.y)
    }
}

/// Shorthand constructor, as the rest of the crate reads more naturally
/// with `point(x, y)` than with `Point::new(x, y)`.
pub fn point(x: Frac, y: Frac) -> (r: Point)
    ensures
        r@ == (RPoint { x: x@, y: y@ }),
{
    Point { x, y }
}

/// A 2d vector with exact rational coordinates.
#[derive(Clone, Copy, Debug)]
pub struct Vector {
    pub x: Frac,
    pub y: Frac,
}

impl View for Vector {
    type V = RPoint;

    open spec fn view(&self) -> RPoint {
        RPoint { x: self.x@, y: self.y@ }
    }
}

impl Vector {
    pub open spec fn wf(&self) -> bool {
        rpoint_wf(self@)
    }

    pub fn new(x: Frac, y: Frac) -> (r: Vector)
        ensures
            r@ == (RPoint { x: x@, y: y@ }),
    {
        Vector { x, y }
    }
}

/// An axis-aligned rectangle: an origin corner and a nonnegative extent.
#[derive(Clone, Copy, Debug)]
pub struct Rect {
    pub x: Frac,
    pub y: Frac,
    pub width: Frac,
    pub height: Frac,
}

impl Rect {
    pub open spec fn wf(&self) -> bool {
        self.x@.d > 0 && self.y@.d > 0 && self.width@.d > 0 && self.height@.d > 0
    }

    /// Exact componentwise equality of the rational values.
    pub fn equals(&self, other: &Rect) -> (r: bool)
        requires
            self.wf(),
            other.wf(),
            in_i128(self.x@.n * other.x@.d),
            in_i128(other.x@.n * self.x@.d),
            in_i128(self.y@.n * other.y@.d),
            in_i128(other.y@.n * self.y@.d),
            in_i128(self.width@.n * other.width@.d),
            in_i128(other.width@.n * self.width@.d),
            in_i128(self.height@.n * other.height@.d),
            in_i128(other.height@.n * self.height@.d),
        ensures
            r == (rat_eq(self.x@, other.x@) && rat_eq(self.y@, other.y@)
                && rat_eq(self.width@, other.width@) && rat_eq(self.height@, other.height@)),
    {
        self.x.equals(&other.x) && self.y.equals(&other.y)
            && self.width.equals(&other.width) && self.height.equals(&other.height)
    }
}

/// Shorthand rectangle constructor from origin and extent.
pub fn rect(x: Frac, y: Frac, width: Frac, height: Frac) -> (r: Rect)
    ensures
        r.x@ == x@,
        r.y@ == y@,
        r.width@ == width@,
        r.height@ == height@,
{
    Rect { x, y, width, height }
}

/// A triangle given by its three vertices.
#[derive(Clone, Copy, Debug)]
pub struct Triangle {
    pub a: Point,
    pub b: Point,
    pub c: Point,
}

/// A line segment between two points.
#[derive(Clone, Copy, Debug)]
pub struct LineSegment {
    pub from: Point,
    pub to: Point,
}

/// An infinite line through `point` with direction `vector`.
#[derive(Clone, Copy, Debug)]
pub struct Line {
    pub point: Point,
    pub vector: Vector,
}

/// The locus `a*x + b*y + c == 0`. The coefficients are not normalized:
/// the sign of `a*x + b*y + c` still tells the side of the line a point
/// lies on, and its magnitude is the distance scaled by the constant
/// factor `sqrt(a^2 + b^2)`.
#[derive(Clone, Copy, Debug)]
pub struct LineEquation {
    pub a: Frac,
    pub b: Frac,
    pub c: Frac,
}

impl LineEquation {
    pub open spec fn wf(&self) -> bool {
        self.a@.d > 0 && self.b@.d > 0 && self.c@.d > 0
    }
}

/// The value `a*x + b*y + c` of a line equation at a point: zero exactly
/// on the line, and of constant sign on each side of it.
pub open spec fn line_eval(eq: LineEquation, p: RPoint) -> Rat {
    crate::rat::rat_add(
        crate::rat::rat_add(crate::rat::rat_mul(eq.a@, p.x), crate::rat::rat_mul(eq.b@, p.y)),
        eq.c@,
    )
}

/// A 2d affine transform with rational entries; a point `(x, y)` maps to
/// `(m11*x + m21*y + m31, m12*x + m22*y + m32)`.
#[derive(Clone, Copy, Debug)]
pub struct Transform {
    pub m11: Frac,
    pub m12: Frac,
    pub m21: Frac,
    pub m22: Frac,
    pub m31: Frac,
    pub m32: Frac,
}

impl Transform {
    pub open spec fn wf(&self) -> bool {
        self.m11@.d > 0 && self.m12@.d > 0 && self.m21@.d > 0 && self.m22@.d > 0
            && self.m31@.d > 0 && self.m32@.d > 0
    }

    pub open spec fn bounded(&self, b: int) -> bool {
        rat_bounded(self.m11@, b) && rat_bounded(self.m12@, b) && rat_bounded(self.m21@, b)
            && rat_bounded(self.m22@, b) && rat_bounded(self.m31@, b) && rat_bounded(self.m32@, b)
    }
}

/// Specification-level image of a point under an affine transform.
pub open spec fn transform_apply(m: Transform, p: RPoint) -> RPoint {
    RPoint {
        x: crate::rat::rat_add(
            crate::rat::rat_add(crate::rat::rat_mul(m.m11@, p.x), crate::rat::rat_mul(m.m21@, p.y)),
            m.m31@,
        ),
        y: crate::rat::rat_add(
            crate::rat::rat_add(crate::rat::rat_mul(m.m12@, p.x), crate::rat::rat_mul(m.m22@, p.y)),
            m.m32@,
        ),
    }
}

/// A cubic Bézier segment, the target type of degree elevation.
#[derive(Clone, Copy, Debug)]
pub struct CubicBezierSegment {
    pub from: Point,
    pub ctrl1: Point,
    pub ctrl2: Point,
    pub to: Point,
}

} // verus!
