//! The quadratic Bézier segment and its exact analysis.

use vstd::prelude::*;
use crate::rat::{
    Frac, Rat, rat_wf, rat_bounded, rat_eq, rat_le, rat_lt, rat_zero, rat_one, in_i128,
    lemma_abs_mul,
};
use crate::geom::{
    Point, RPoint, rpoint_wf, rpoint_bounded, rpoint_eq, Vector, Rect, Triangle, LineSegment,
    LineEquation, line_eval, Transform, CubicBezierSegment, transform_apply,
};

verus! {

/// Largest magnitude allowed for the numerator and denominator of each
/// control-point coordinate; it keeps every product below computed by the
/// curve operations inside `i128`.
pub open spec fn coord_limit() -> int {
    4096
}

/// Largest magnitude allowed for the numerator and denominator of a curve
/// parameter handed to `sample` and its relatives.
pub open spec fn param_limit() -> int {
    0x100_0000_0000
}

/// Bound on the components of a value produced by `eval1` from inputs
/// within `coord_limit` and `param_limit`.
pub open spec fn eval_limit() -> int {
    9int * 4096 * 4096 * 4096 * 0x100_0000_0000 * 0x100_0000_0000
}

/// Tighter bound on an `eval1` value when the parameter lies on the
/// subdivision grid.
pub open spec fn eval_grid_limit() -> int {
    9int * 4096 * 4096 * 4096 * 0x10_0000 * 0x10_0000
}

/// Specification-level segment: three rational points.
pub ghost struct RQuad {
    pub from: RPoint,
    pub ctrl: RPoint,
    pub to: RPoint,
}

pub open spec fn rquad_wf(q: RQuad) -> bool {
    rpoint_wf(q.from) && rpoint_wf(q.ctrl) && rpoint_wf(q.to)
}

pub open spec fn rquad_bounded(q: RQuad, b: int) -> bool {
    rpoint_bounded(q.from, b) && rpoint_bounded(q.ctrl, b) && rpoint_bounded(q.to, b)
}

/// The quadratic Bernstein combination
/// `p0*(1-t)^2 + 2*p1*(1-t)*t + p2*t^2`, written over the common
/// denominator `p0.d * p1.d * p2.d * t.d^2`.
pub open spec fn eval1(p0: Rat, p1: Rat, p2: Rat, t: Rat) -> Rat {
    Rat {
        n: p0.n * p1.d * p2.d * (t.d - t.n) * (t.d - t.n)
            + 2 * p1.n * p0.d * p2.d * (t.d - t.n) * t.n
            + p2.n * p0.d * p1.d * t.n * t.n,
        d: p0.d * p1.d * p2.d * t.d * t.d,
    }
}

/// The derivative of the Bernstein combination:
/// `(2t-2)*p0 + (2-4t)*p1 + 2t*p2`, over the denominator
/// `p0.d * p1.d * p2.d * t.d`.
pub open spec fn deriv1(p0: Rat, p1: Rat, p2: Rat, t: Rat) -> Rat {
    Rat {
        n: (2 * t.n - 2 * t.d) * p0.n * p1.d * p2.d
            + (2 * t.d - 4 * t.n) * p1.n * p0.d * p2.d
            + 2 * t.n * p2.n * p0.d * p1.d,
        d: p0.d * p1.d * p2.d * t.d,
    }
}

/// Specification-level curve point at parameter `t`.
pub open spec fn eval_point(q: RQuad, t: Rat) -> RPoint {
    RPoint {
        x: eval1(q.from.x, q.ctrl.x, q.to.x, t),
        y: eval1(q.from.y, q.ctrl.y, q.to.y, t),
    }
}

/// A 2d curve segment defined by three points: the beginning of the
/// segment, a control point and the end of the segment. The curve is
/// `P(t) = (1-t)^2 * from + 2*(1-t)*t * ctrl + t^2 * to` for `t` in [0, 1].
#[derive(Clone, Copy, Debug)]
pub struct QuadraticBezierSegment {
    pub from: Point,
    pub ctrl: Point,
    pub to: Point,
}

impl View for QuadraticBezierSegment {
    type V = RQuad;

    open spec fn view(&self) -> RQuad {
        RQuad { from: self.from@, ctrl: self.ctrl@, to: self.to@ }
    }
}

/// Exact Bernstein evaluation of one coordinate; shared by `sample`,
/// `x` and `y`.
pub(crate) fn bern1(p0: &Frac, p1: &Frac, p2: &Frac, t: &Frac) -> (r: Frac)
    requires
        p0.bounded(coord_limit()),
        p1.bounded(coord_limit()),
        p2.bounded(coord_limit()),
        t.bounded(param_limit()),
    ensures
        r@ == eval1(p0@, p1@, p2@, t@),
        r.wf(),
        r.bounded(eval_limit()),
        t.bounded(grid_limit()) ==> r.bounded(eval_grid_limit()),
{
    let a: i128 = t.num;
    let b: i128 = t.den;
    let u: i128 = b - a;
    proof {
        if rat_bounded(t@, grid_limit()) {
            let c: int = coord_limit();
            let g: int = grid_limit();
            let ui: int = t@.d - t@.n;
            lemma_abs_mul(p0@.n, p1@.d, c, c);
            lemma_abs_mul(p0@.n * p1@.d, p2@.d, c * c, c);
            lemma_abs_mul(p0@.n * p1@.d * p2@.d, ui, c * c * c, 2 * g);
            lemma_abs_mul(p0@.n * p1@.d * p2@.d * ui, ui, 2 * c * c * c * g, 2 * g);
            lemma_abs_mul(2 * p1@.n, p0@.d, 2 * c, c);
            lemma_abs_mul(2 * p1@.n * p0@.d, p2@.d, 2 * c * c, c);
            lemma_abs_mul(2 * p1@.n * p0@.d * p2@.d, ui, 2 * c * c * c, 2 * g);
            lemma_abs_mul(2 * p1@.n * p0@.d * p2@.d * ui, t@.n, 4 * c * c * c * g, g);
            lemma_abs_mul(p2@.n, p0@.d, c, c);
            lemma_abs_mul(p2@.n * p0@.d, p1@.d, c * c, c);
            lemma_abs_mul(p2@.n * p0@.d * p1@.d, t@.n, c * c * c, g);
            lemma_abs_mul(p2@.n * p0@.d * p1@.d * t@.n, t@.n, c * c * c * g, g);
            lemma_abs_mul(p0@.d, p1@.d, c, c);
            lemma_abs_mul(p0@.d * p1@.d, p2@.d, c * c, c);
            lemma_abs_mul(p0@.d * p1@.d * p2@.d, t@.d, c * c * c, g);
            lemma_abs_mul(p0@.d * p1@.d * p2@.d * t@.d, t@.d, c * c * c * g, g);
        }
        let c: int = coord_limit();
        let tm: int = param_limit();
        let ui: int = t@.d - t@.n;
        lemma_abs_mul(p0@.n, p1@.d, c, c);
        lemma_abs_mul(p0@.n * p1@.d, p2@.d, c * c, c);
        lemma_abs_mul(p0@.n * p1@.d * p2@.d, ui, c * c * c, 2 * tm);
        lemma_abs_mul(p0@.n * p1@.d * p2@.d * ui, ui, 2 * c * c * c * tm, 2 * tm);
        lemma_abs_mul(2 * p1@.n, p0@.d, 2 * c, c);
        lemma_abs_mul(2 * p1@.n * p0@.d, p2@.d, 2 * c * c, c);
        lemma_abs_mul(2 * p1@.n * p0@.d * p2@.d, ui, 2 * c * c * c, 2 * tm);
        lemma_abs_mul(2 * p1@.n * p0@.d * p2@.d * ui, t@.n, 4 * c * c * c * tm, tm);
        lemma_abs_mul(p2@.n, p0@.d, c, c);
        lemma_abs_mul(p2@.n * p0@.d, p1@.d, c * c, c);
        lemma_abs_mul(p2@.n * p0@.d * p1@.d, t@.n, c * c * c, tm);
        lemma_abs_mul(p2@.n * p0@.d * p1@.d * t@.n, t@.n, c * c * c * tm, tm);
        lemma_abs_mul(p0@.d, p1@.d, c, c);
        lemma_abs_mul(p0@.d * p1@.d, p2@.d, c * c, c);
        lemma_abs_mul(p0@.d * p1@.d * p2@.d, t@.d, c * c * c, tm);
        lemma_abs_mul(p0@.d * p1@.d * p2@.d * t@.d, t@.d, c * c * c * tm, tm);
    }
    let m0: i128 = p0.num * p1.den * p2.den * u * u;
    let m1: i128 = 2 * p1.num * p0.den * p2.den * u * a;
    let m2: i128 = p2.num * p0.den * p1.den * a * a;
    let dd: i128 = p0.den * p1.den * p2.den * b * b;
    Frac { num: m0 + m1 + m2, den: dd }
}

/// Exact evaluation of one coordinate of the derivative.
pub(crate) fn dbern1(p0: &Frac, p1: &Frac, p2: &Frac, t: &Frac) -> (r: Frac)
    requires
        p0.bounded(coord_limit()),
        p1.bounded(coord_limit()),
        p2.bounded(coord_limit()),
        t.bounded(param_limit()),
    ensures
        r@ == deriv1(p0@, p1@, p2@, t@),
        r.wf(),
        r.bounded(eval_limit()),
{
    let a: i128 = t.num;
    let b: i128 = t.den;
    proof {
        let c: int = coord_limit();
        let tm: int = param_limit();
        lemma_abs_mul(2 * t@.n - 2 * t@.d, p0@.n, 4 * tm, c);
        lemma_abs_mul((2 * t@.n - 2 * t@.d) * p0@.n, p1@.d, 4 * tm * c, c);
        lemma_abs_mul((2 * t@.n - 2 * t@.d) * p0@.n * p1@.d, p2@.d, 4 * tm * c * c, c);
        lemma_abs_mul(2 * t@.d - 4 * t@.n, p1@.n, 6 * tm, c);
        lemma_abs_mul((2 * t@.d - 4 * t@.n) * p1@.n, p0@.d, 6 * tm * c, c);
        lemma_abs_mul((2 * t@.d - 4 * t@.n) * p1@.n * p0@.d, p2@.d, 6 * tm * c * c, c);
        lemma_abs_mul(2 * t@.n, p2@.n, 2 * tm, c);
        lemma_abs_mul(2 * t@.n * p2@.n, p0@.d, 2 * tm * c, c);
        lemma_abs_mul(2 * t@.n * p2@.n * p0@.d, p1@.d, 2 * tm * c * c, c);
        lemma_abs_mul(p0@.d, p1@.d, c, c);
        lemma_abs_mul(p0@.d * p1@.d, p2@.d, c * c, c);
        lemma_abs_mul(p0@.d * p1@.d * p2@.d, t@.d, c * c * c, tm);
    }
    let m0: i128 = (2 * a - 2 * b) * p0.num * p1.den * p2.den;
    let m1: i128 = (2 * b - 4 * a) * p1.num * p0.den * p2.den;
    let m2: i128 = 2 * a * p2.num * p0.den * p1.den;
    let dd: i128 = p0.den * p1.den * p2.den * b;
    Frac { num: m0 + m1 + m2, den: dd }
}

impl QuadraticBezierSegment {
    pub open spec fn wf(&self) -> bool {
        rquad_wf(self@)
    }

    pub open spec fn bounded(&self, b: int) -> bool {
        rquad_bounded(self@, b)
    }

    /// Sample the curve at `t` (expecting `t` between 0 and 1).
    pub fn sample(&self, t: &Frac) -> (r: Point)
        requires
            self.bounded(coord_limit()),
            t.bounded(param_limit()),
        ensures
            r@ == eval_point(self@, t@),
            r.wf(),
            r.bounded(eval_limit()),
            t.bounded(grid_limit()) ==> r.bounded(eval_grid_limit()),
    {
        Point {
            x: bern1(&self.from.x, &self.ctrl.x, &self.to.x, t),
            y: bern1(&self.from.y, &self.ctrl.y, &self.to.y, t),
        }
    }

    /// Sample the x coordinate of the curve at `t`.
    pub fn x(&self, t: &Frac) -> (r: Frac)
        requires
            self.bounded(coord_limit()),
            t.bounded(param_limit()),
        ensures
            r@ == eval1(self@.from.x, self@.ctrl.x, self@.to.x, t@),
            r.wf(),
            r.bounded(eval_limit()),
            t.bounded(grid_limit()) ==> r.bounded(eval_grid_limit()),
    {
        bern1(&self.from.x, &self.ctrl.x, &self.to.x, t)
    }

    /// Sample the y coordinate of the curve at `t`.
    pub fn y(&self, t: &Frac) -> (r: Frac)
        requires
            self.bounded(coord_limit()),
            t.bounded(param_limit()),
        ensures
            r@ == eval1(self@.from.y, self@.ctrl.y, self@.to.y, t@),
            r.wf(),
            r.bounded(eval_limit()),
    {
        bern1(&self.from.y, &self.ctrl.y, &self.to.y, t)
    }

    /// Sample the curve's derivative at `t`.
    pub fn derivative(&self, t: &Frac) -> (r: Vector)
        requires
            self.bounded(coord_limit()),
            t.bounded(param_limit()),
        ensures
            r@.x == deriv1(self@.from.x, self@.ctrl.x, self@.to.x, t@),
            r@.y == deriv1(self@.from.y, self@.ctrl.y, self@.to.y, t@),
            r.wf(),
    {
        Vector {
            x: dbern1(&self.from.x, &self.ctrl.x, &self.to.x, t),
            y: dbern1(&self.from.y, &self.ctrl.y, &self.to.y, t),
        }
    }

    /// Sample the x coordinate of the curve's derivative at `t`.
    pub fn dx(&self, t: &Frac) -> (r: Frac)
        requires
            self.bounded(coord_limit()),
            t.bounded(param_limit()),
        ensures
            r@ == deriv1(self@.from.x, self@.ctrl.x, self@.to.x, t@),
            r.wf(),
    {
        dbern1(&self.from.x, &self.ctrl.x, &self.to.x, t)
    }

    /// Sample the y coordinate of the curve's derivative at `t`.
    pub fn dy(&self, t: &Frac) -> (r: Frac)
        requires
            self.bounded(coord_limit()),
            t.bounded(param_limit()),
        ensures
            r@ == deriv1(self@.from.y, self@.ctrl.y, self@.to.y, t@),
            r.wf(),
    {
        dbern1(&self.from.y, &self.ctrl.y, &self.to.y, t)
    }

    /// Swap the beginning and the end of the segment.
    pub fn flip(&self) -> (r: QuadraticBezierSegment)
        ensures
            r@.from == self@.to,
            r@.ctrl == self@.ctrl,
            r@.to == self@.from,
    {
        QuadraticBezierSegment { from: self.to, ctrl: self.ctrl, to: self.from }
    }

    /// The start of the curve: the same point as `sample(0)`.
    pub fn from(&self) -> (r: Point)
        ensures
            r@ == self@.from,
    {
        self.from
    }

    /// The end of the curve: the same point as `sample(1)`.
    pub fn to(&self) -> (r: Point)
        ensures
            r@ == self@.to,
    {
        self.to
    }

    /// Split this curve into two sub-curves meeting at `sample(t)`.
    pub fn split(&self, t: &Frac) -> (r: (QuadraticBezierSegment, QuadraticBezierSegment))
        requires
            self.bounded(coord_limit()),
            t.bounded(param_limit()),
        ensures
            r.0@ == (RQuad {
                from: self@.from,
                ctrl: lerp_point(self@.from, self@.ctrl, t@),
                to: eval_point(self@, t@),
            }),
            r.1@ == (RQuad {
                from: eval_point(self@, t@),
                ctrl: lerp_point(self@.ctrl, self@.to, t@),
                to: self@.to,
            }),
    {
        let split_point: Point = self.sample(t);
        (
            QuadraticBezierSegment {
                from: self.from,
                ctrl: lerp_pt(&self.from, &self.ctrl, t),
                to: split_point,
            },
            QuadraticBezierSegment {
                from: split_point,
                ctrl: lerp_pt(&self.ctrl, &self.to, t),
                to: self.to,
            },
        )
    }

    /// The part of the curve before the split point.
    pub fn before_split(&self, t: &Frac) -> (r: QuadraticBezierSegment)
        requires
            self.bounded(coord_limit()),
            t.bounded(param_limit()),
        ensures
            r@ == (RQuad {
                from: self@.from,
                ctrl: lerp_point(self@.from, self@.ctrl, t@),
                to: eval_point(self@, t@),
            }),
    {
        QuadraticBezierSegment {
            from: self.from,
            ctrl: lerp_pt(&self.from, &self.ctrl, t),
            to: self.sample(t),
        }
    }

    /// The part of the curve after the split point.
    pub fn after_split(&self, t: &Frac) -> (r: QuadraticBezierSegment)
        requires
            self.bounded(coord_limit()),
            t.bounded(param_limit()),
        ensures
            r@ == (RQuad {
                from: eval_point(self@, t@),
                ctrl: lerp_point(self@.ctrl, self@.to, t@),
                to: self@.to,
            }),
    {
        QuadraticBezierSegment {
            from: self.sample(t),
            ctrl: lerp_pt(&self.ctrl, &self.to, t),
            to: self.to,
        }
    }

    /// The sub-curve over the parameter range `[t1, t2]`; the callers must
    /// keep `0 <= t1 <= t2 <= 1` and `t1 != 1`.
    pub fn split_range(&self, t1: &Frac, t2: &Frac) -> (r: QuadraticBezierSegment)
        requires
            self.bounded(coord_limit()),
            t1.bounded(grid_limit()),
            t2.bounded(grid_limit()),
            rat_le(rat_zero(), t1@),
            rat_le(t1@, t2@),
            rat_le(t2@, rat_one()),
            rat_lt(t1@, rat_one()),
        ensures
            r@ == (RQuad {
                from: eval_point(self@, t1@),
                ctrl: RPoint {
                    x: srctrl1(self@.from.x, self@.ctrl.x, self@.to.x, t1@, t2@),
                    y: srctrl1(self@.from.y, self@.ctrl.y, self@.to.y, t1@, t2@),
                },
                to: eval_point(self@, t2@),
            }),
            rquad_wf(r@),
            rquad_bounded(r@, 0x20_0000_0000_0000_0000_0000_0000),
    {
        QuadraticBezierSegment {
            from: self.sample(t1),
            ctrl: Point {
                x: srctrl_frac(&self.from.x, &self.ctrl.x, &self.to.x, t1, t2),
                y: srctrl_frac(&self.from.y, &self.ctrl.y, &self.to.y, t1, t2),
            },
            to: self.sample(t2),
        }
    }

    /// Elevate this curve to a cubic with the same parametrization.
    pub fn to_cubic(&self) -> (r: CubicBezierSegment)
        requires
            self.bounded(coord_limit()),
        ensures
            r.from@ == self@.from,
            r.to@ == self@.to,
            r.ctrl1@.x == elev1(self@.from.x, self@.ctrl.x),
            r.ctrl1@.y == elev1(self@.from.y, self@.ctrl.y),
            r.ctrl2@.x == elev1(self@.to.x, self@.ctrl.x),
            r.ctrl2@.y == elev1(self@.to.y, self@.ctrl.y),
    {
        CubicBezierSegment {
            from: self.from,
            ctrl1: Point {
                x: elev_frac(&self.from.x, &self.ctrl.x),
                y: elev_frac(&self.from.y, &self.ctrl.y),
            },
            ctrl2: Point {
                x: elev_frac(&self.to.x, &self.ctrl.x),
                y: elev_frac(&self.to.y, &self.ctrl.y),
            },
            to: self.to,
        }
    }

    /// The line segment between the two endpoints.
    pub fn baseline(&self) -> (r: LineSegment)
        ensures
            r.from@ == self@.from,
            r.to@ == self@.to,
    {
        LineSegment { from: self.from, to: self.to }
    }

    /// The triangle of the three control points; it contains the curve.
    pub fn bounding_triangle(&self) -> (r: Triangle)
        ensures
            r.a@ == self@.from,
            r.b@ == self@.ctrl,
            r.c@ == self@.to,
    {
        Triangle { a: self.from, b: self.ctrl, c: self.to }
    }

    /// The componentwise range of the x coordinates of the control points.
    pub fn fast_bounding_range_x(&self) -> (r: (Frac, Frac))
        requires
            self.bounded(coord_limit()),
        ensures
            r.0@ == rat_min3(self@.from.x, self@.ctrl.x, self@.to.x),
            r.1@ == rat_max3(self@.from.x, self@.ctrl.x, self@.to.x),
            rat_le(r.0@, self@.from.x) && rat_le(r.0@, self@.ctrl.x) && rat_le(r.0@, self@.to.x),
            rat_le(self@.from.x, r.1@) && rat_le(self@.ctrl.x, r.1@) && rat_le(self@.to.x, r.1@),
            r.0.wf() && r.1.wf(),
            r.0.bounded(coord_limit()) && r.1.bounded(coord_limit()),
    {
        (
            min3(&self.from.x, &self.ctrl.x, &self.to.x),
            max3(&self.from.x, &self.ctrl.x, &self.to.x),
        )
    }

    /// The componentwise range of the y coordinates of the control points.
    pub fn fast_bounding_range_y(&self) -> (r: (Frac, Frac))
        requires
            self.bounded(coord_limit()),
        ensures
            r.0@ == rat_min3(self@.from.y, self@.ctrl.y, self@.to.y),
            r.1@ == rat_max3(self@.from.y, self@.ctrl.y, self@.to.y),
            rat_le(r.0@, self@.from.y) && rat_le(r.0@, self@.ctrl.y) && rat_le(r.0@, self@.to.y),
            rat_le(self@.from.y, r.1@) && rat_le(self@.ctrl.y, r.1@) && rat_le(self@.to.y, r.1@),
            r.0.wf() && r.1.wf(),
            r.0.bounded(coord_limit()) && r.1.bounded(coord_limit()),
    {
        (
            min3(&self.from.y, &self.ctrl.y, &self.to.y),
            max3(&self.from.y, &self.ctrl.y, &self.to.y),
        )
    }

    /// A conservative axis-aligned rectangle containing the three control
    /// points, and with them the whole curve.
    pub fn fast_bounding_rect(&self) -> (r: Rect)
        requires
            self.bounded(coord_limit()),
        ensures
            r.x@ == rat_min3(self@.from.x, self@.ctrl.x, self@.to.x),
            r.y@ == rat_min3(self@.from.y, self@.ctrl.y, self@.to.y),
            r.width@ == crate::rat::rat_sub(
                rat_max3(self@.from.x, self@.ctrl.x, self@.to.x),
                rat_min3(self@.from.x, self@.ctrl.x, self@.to.x),
            ),
            r.height@ == crate::rat::rat_sub(
                rat_max3(self@.from.y, self@.ctrl.y, self@.to.y),
                rat_min3(self@.from.y, self@.ctrl.y, self@.to.y),
            ),
            r.wf(),
    {
        let (min_x, max_x): (Frac, Frac) = self.fast_bounding_range_x();
        let (min_y, max_y): (Frac, Frac) = self.fast_bounding_range_y();
        proof {
            let c: int = coord_limit();
            lemma_abs_mul(max_x@.n, min_x@.d, c, c);
            lemma_abs_mul(min_x@.n, max_x@.d, c, c);
            lemma_abs_mul(max_y@.n, min_y@.d, c, c);
            lemma_abs_mul(min_y@.n, max_y@.d, c, c);
            lemma_abs_mul(max_x@.d, min_x@.d, c, c);
            lemma_abs_mul(max_y@.d, min_y@.d, c, c);
        }
        let width: Frac = max_x.sub(&min_x);
        let height: Frac = max_y.sub(&min_y);
        Rect { x: min_x, y: min_y, width, height }
    }

    /// The exact range of the x coordinate over the curve, found by
    /// sampling at the extremum parameters.
    pub fn bounding_range_x(&self) -> (r: (Frac, Frac))
        requires
            self.bounded(coord_limit()),
        ensures
            r.0@ == min_value1(self@.from.x, self@.ctrl.x, self@.to.x),
            r.1@ == max_value1(self@.from.x, self@.ctrl.x, self@.to.x),
            r.0.wf() && r.1.wf(),
            r.0.bounded(extval_limit()) && r.1.bounded(extval_limit()),
            r.0@.d <= 4 * coord_limit() * coord_limit() * coord_limit() * coord_limit()
                * coord_limit(),
            r.1@.d <= 4 * coord_limit() * coord_limit() * coord_limit() * coord_limit()
                * coord_limit(),
    {
        (
            axis_min_value(&self.from.x, &self.ctrl.x, &self.to.x),
            axis_max_value(&self.from.x, &self.ctrl.x, &self.to.x),
        )
    }

    /// The exact range of the y coordinate over the curve.
    pub fn bounding_range_y(&self) -> (r: (Frac, Frac))
        requires
            self.bounded(coord_limit()),
        ensures
            r.0@ == min_value1(self@.from.y, self@.ctrl.y, self@.to.y),
            r.1@ == max_value1(self@.from.y, self@.ctrl.y, self@.to.y),
            r.0.wf() && r.1.wf(),
            r.0.bounded(extval_limit()) && r.1.bounded(extval_limit()),
            r.0@.d <= 4 * coord_limit() * coord_limit() * coord_limit() * coord_limit()
                * coord_limit(),
            r.1@.d <= 4 * coord_limit() * coord_limit() * coord_limit() * coord_limit()
                * coord_limit(),
    {
        (
            axis_min_value(&self.from.y, &self.ctrl.y, &self.to.y),
            axis_max_value(&self.from.y, &self.ctrl.y, &self.to.y),
        )
    }

    /// The smallest axis-aligned rectangle containing the curve.
    pub fn bounding_rect(&self) -> (r: Rect)
        requires
            self.bounded(coord_limit()),
        ensures
            r.x@ == min_value1(self@.from.x, self@.ctrl.x, self@.to.x),
            r.y@ == min_value1(self@.from.y, self@.ctrl.y, self@.to.y),
            r.width@ == crate::rat::rat_sub(
                max_value1(self@.from.x, self@.ctrl.x, self@.to.x),
                min_value1(self@.from.x, self@.ctrl.x, self@.to.x),
            ),
            r.height@ == crate::rat::rat_sub(
                max_value1(self@.from.y, self@.ctrl.y, self@.to.y),
                min_value1(self@.from.y, self@.ctrl.y, self@.to.y),
            ),
            r.wf(),
    {
        let (min_x, max_x): (Frac, Frac) = self.bounding_range_x();
        let (min_y, max_y): (Frac, Frac) = self.bounding_range_y();
        proof {
            assert(in_i128(max_x@.n * min_x@.d) && in_i128(min_x@.n * max_x@.d)
                && in_i128(max_x@.n * min_x@.d - min_x@.n * max_x@.d)
                && in_i128(max_x@.d * min_x@.d))
                by (nonlinear_arith)
                requires
                    -0x8000_0000_0000_0000 <= max_x@.n <= 0x8000_0000_0000_0000,
                    -0x8000_0000_0000_0000 <= min_x@.n <= 0x8000_0000_0000_0000,
                    0 < max_x@.d <= 0x4000_0000_0000_0000,
                    0 < min_x@.d <= 0x4000_0000_0000_0000,
            ;
            assert(in_i128(max_y@.n * min_y@.d) && in_i128(min_y@.n * max_y@.d)
                && in_i128(max_y@.n * min_y@.d - min_y@.n * max_y@.d)
                && in_i128(max_y@.d * min_y@.d))
                by (nonlinear_arith)
                requires
                    -0x8000_0000_0000_0000 <= max_y@.n <= 0x8000_0000_0000_0000,
                    -0x8000_0000_0000_0000 <= min_y@.n <= 0x8000_0000_0000_0000,
                    0 < max_y@.d <= 0x4000_0000_0000_0000,
                    0 < min_y@.d <= 0x4000_0000_0000_0000,
            ;
        }
        let width: Frac = max_x.sub(&min_x);
        let height: Frac = max_y.sub(&min_y);
        Rect { x: min_x, y: min_y, width, height }
    }

    /// The parameter of the y-most position of the curve.
    pub fn find_y_maximum(&self) -> (r: Frac)
        requires
            self.bounded(coord_limit()),
        ensures
            r@ == max_param1(self@.from.y, self@.ctrl.y, self@.to.y),
            r.wf(),
            rat_le(rat_zero(), r@),
            rat_le(r@, rat_one()),
    {
        axis_max_param(&self.from.y, &self.ctrl.y, &self.to.y)
    }

    /// The parameter of the y-least position of the curve; endpoint
    /// ties resolve to the start, `t == 0`.
    pub fn find_y_minimum(&self) -> (r: Frac)
        requires
            self.bounded(coord_limit()),
        ensures
            r@ == min_param1(self@.from.y, self@.ctrl.y, self@.to.y),
            r.wf(),
            rat_le(rat_zero(), r@),
            rat_le(r@, rat_one()),
    {
        axis_min_param(&self.from.y, &self.ctrl.y, &self.to.y)
    }

    /// The interior parameter where the y derivative vanishes, or `None`
    /// when the y coordinate is degree-degenerate
    /// (`from.y - 2*ctrl.y + to.y == 0`) or the root is not strictly
    /// inside (0, 1).
    pub fn find_local_y_extremum(&self) -> (r: Option<Frac>)
        requires
            self.bounded(coord_limit()),
        ensures
            match r {
                Some(t) => {
                    &&& t@ == ext1(self@.from.y, self@.ctrl.y, self@.to.y)
                    &&& ext_den(self@.from.y, self@.ctrl.y, self@.to.y) != 0
                    &&& rat_lt(rat_zero(), t@)
                    &&& rat_lt(t@, rat_one())
                    &&& t.wf()
                },
                None => ext_den(self@.from.y, self@.ctrl.y, self@.to.y) == 0
                    || !(rat_lt(rat_zero(), ext1(self@.from.y, self@.ctrl.y, self@.to.y))
                        && rat_lt(ext1(self@.from.y, self@.ctrl.y, self@.to.y), rat_one())),
            },
    {
        local_extremum(&self.from.y, &self.ctrl.y, &self.to.y)
    }

    /// The parameter of the x-most position of the curve.
    pub fn find_x_maximum(&self) -> (r: Frac)
        requires
            self.bounded(coord_limit()),
        ensures
            r@ == max_param1(self@.from.x, self@.ctrl.x, self@.to.x),
            r.wf(),
            rat_le(rat_zero(), r@),
            rat_le(r@, rat_one()),
    {
        axis_max_param(&self.from.x, &self.ctrl.x, &self.to.x)
    }

    /// The parameter of the x-least position of the curve; endpoint
    /// ties resolve to the start, `t == 0`.
    pub fn find_x_minimum(&self) -> (r: Frac)
        requires
            self.bounded(coord_limit()),
        ensures
            r@ == min_param1(self@.from.x, self@.ctrl.x, self@.to.x),
            r.wf(),
            rat_le(rat_zero(), r@),
            rat_le(r@, rat_one()),
    {
        axis_min_param(&self.from.x, &self.ctrl.x, &self.to.x)
    }

    /// The interior parameter where the x derivative vanishes, or `None`.
    pub fn find_local_x_extremum(&self) -> (r: Option<Frac>)
        requires
            self.bounded(coord_limit()),
        ensures
            match r {
                Some(t) => {
                    &&& t@ == ext1(self@.from.x, self@.ctrl.x, self@.to.x)
                    &&& ext_den(self@.from.x, self@.ctrl.x, self@.to.x) != 0
                    &&& rat_lt(rat_zero(), t@)
                    &&& rat_lt(t@, rat_one())
                    &&& t.wf()
                },
                None => ext_den(self@.from.x, self@.ctrl.x, self@.to.x) == 0
                    || !(rat_lt(rat_zero(), ext1(self@.from.x, self@.ctrl.x, self@.to.x))
                        && rat_lt(ext1(self@.from.x, self@.ctrl.x, self@.to.x), rat_one())),
            },
    {
        local_extremum(&self.from.x, &self.ctrl.x, &self.to.x)
    }

    /// Applies an affine transform to the three control points.
    pub fn transform(&self, m: &Transform) -> (r: QuadraticBezierSegment)
        requires
            self.bounded(coord_limit()),
            m.bounded(coord_limit()),
        ensures
            r@ == (RQuad {
                from: transform_apply(*m, self@.from),
                ctrl: transform_apply(*m, self@.ctrl),
                to: transform_apply(*m, self@.to),
            }),
    {
        QuadraticBezierSegment {
            from: transform_point(m, &self.from),
            ctrl: transform_point(m, &self.ctrl),
            to: transform_point(m, &self.to),
        }
    }
}


/// Numerator of the local-extremum parameter of one coordinate,
/// `(p0 - p1) / (p0 - 2*p1 + p2)`, before sign normalization.
pub open spec fn ext_num(p0: Rat, p1: Rat, p2: Rat) -> int {
    (p0.n * p1.d - p1.n * p0.d) * p2.d
}

/// Denominator of the local-extremum parameter: the numerator of
/// `p0 - 2*p1 + p2` over the common denominator `p0.d * p1.d * p2.d`.
/// The coordinate is degree-degenerate (affine in `t`) exactly when
/// this is zero.
pub open spec fn ext_den(p0: Rat, p1: Rat, p2: Rat) -> int {
    p0.n * p1.d * p2.d - 2 * p1.n * p0.d * p2.d + p2.n * p0.d * p1.d
}

/// The local-extremum parameter, with the sign moved to the numerator.
/// Well-formed only when `ext_den != 0`.
pub open spec fn ext1(p0: Rat, p1: Rat, p2: Rat) -> Rat {
    if ext_den(p0, p1, p2) >= 0 {
        Rat { n: ext_num(p0, p1, p2), d: ext_den(p0, p1, p2) }
    } else {
        Rat { n: -ext_num(p0, p1, p2), d: -ext_den(p0, p1, p2) }
    }
}

/// The coordinate value at the local-extremum parameter, in closed form:
/// `p0 - (p0 - p1)^2 / (p0 - 2*p1 + p2)`, sign-normalized.
pub open spec fn extval1(p0: Rat, p1: Rat, p2: Rat) -> Rat {
    let s = p0.n * p1.d - p1.n * p0.d;
    let dv = ext_den(p0, p1, p2);
    if dv >= 0 {
        Rat { n: p0.n * p1.d * dv - s * s * p2.d, d: p0.d * p1.d * dv }
    } else {
        Rat { n: -(p0.n * p1.d * dv - s * s * p2.d), d: -(p0.d * p1.d * dv) }
    }
}

/// Computes the local-extremum parameter of one coordinate, or `None`
/// when the coordinate is degree-degenerate or the root is not strictly
/// inside (0, 1).
pub(crate) fn local_extremum(p0: &Frac, p1: &Frac, p2: &Frac) -> (r: Option<Frac>)
    requires
        p0.bounded(coord_limit()),
        p1.bounded(coord_limit()),
        p2.bounded(coord_limit()),
    ensures
        match r {
            Some(t) => {
                &&& t@ == ext1(p0@, p1@, p2@)
                &&& ext_den(p0@, p1@, p2@) != 0
                &&& rat_lt(rat_zero(), t@)
                &&& rat_lt(t@, rat_one())
                &&& t.wf()
                &&& t.bounded(4 * coord_limit() * coord_limit() * coord_limit())
            },
            None => ext_den(p0@, p1@, p2@) == 0 || !(rat_lt(rat_zero(), ext1(p0@, p1@, p2@))
                && rat_lt(ext1(p0@, p1@, p2@), rat_one())),
        },
{
    proof {
        let c: int = coord_limit();
        lemma_abs_mul(p0@.n, p1@.d, c, c);
        lemma_abs_mul(p1@.n, p0@.d, c, c);
        lemma_abs_mul(p0@.n * p1@.d - p1@.n * p0@.d, p2@.d, 2 * c * c, c);
        lemma_abs_mul(p0@.n * p1@.d, p2@.d, c * c, c);
        lemma_abs_mul(2 * p1@.n, p0@.d, 2 * c, c);
        lemma_abs_mul(2 * p1@.n * p0@.d, p2@.d, 2 * c * c, c);
        lemma_abs_mul(p2@.n, p0@.d, c, c);
        lemma_abs_mul(p2@.n * p0@.d, p1@.d, c * c, c);
    }
    let sn: i128 = (p0.num * p1.den - p1.num * p0.den) * p2.den;
    let dv: i128 = p0.num * p1.den * p2.den - 2 * p1.num * p0.den * p2.den
        + p2.num * p0.den * p1.den;
    if dv == 0 {
        return None;
    }
    let (tn, td): (i128, i128) = if dv >= 0 { (sn, dv) } else { (-sn, -dv) };
    proof {
        assert(0 * td as int == 0) by (nonlinear_arith);
        assert(tn as int * 1 == tn as int) by (nonlinear_arith);
        assert(1 * td as int == td as int) by (nonlinear_arith);
    }
    if 0 < tn && tn < td {
        Some(Frac { num: tn, den: td })
    } else {
        None
    }
}

/// Computes the coordinate value at the local extremum in closed form.
pub(crate) fn local_extremum_value(p0: &Frac, p1: &Frac, p2: &Frac) -> (r: Frac)
    requires
        p0.bounded(coord_limit()),
        p1.bounded(coord_limit()),
        p2.bounded(coord_limit()),
        ext_den(p0@, p1@, p2@) != 0,
    ensures
        r@ == extval1(p0@, p1@, p2@),
        r.wf(),
        r.bounded(8 * coord_limit() * coord_limit() * coord_limit() * coord_limit()
            * coord_limit()),
        r@.d <= 4 * coord_limit() * coord_limit() * coord_limit() * coord_limit() * coord_limit(),
{
    proof {
        let c: int = coord_limit();
        lemma_abs_mul(p0@.n, p1@.d, c, c);
        lemma_abs_mul(p1@.n, p0@.d, c, c);
        lemma_abs_mul(p0@.n * p1@.d, p2@.d, c * c, c);
        lemma_abs_mul(2 * p1@.n, p0@.d, 2 * c, c);
        lemma_abs_mul(2 * p1@.n * p0@.d, p2@.d, 2 * c * c, c);
        lemma_abs_mul(p2@.n, p0@.d, c, c);
        lemma_abs_mul(p2@.n * p0@.d, p1@.d, c * c, c);
        let s: int = p0@.n * p1@.d - p1@.n * p0@.d;
        let dv: int = ext_den(p0@, p1@, p2@);
        lemma_abs_mul(s, s, 2 * c * c, 2 * c * c);
        lemma_abs_mul(s * s, p2@.d, 4 * c * c * c * c, c);
        lemma_abs_mul(p0@.n * p1@.d, dv, c * c, 4 * c * c * c);
        lemma_abs_mul(p0@.d, p1@.d, c, c);
        lemma_abs_mul(p0@.d * p1@.d, dv, c * c, 4 * c * c * c);
        assert(dv < 0 ==> p0@.d * p1@.d * dv < 0) by (nonlinear_arith)
            requires
                p0@.d > 0,
                p1@.d > 0,
        ;
    }
    let s: i128 = p0.num * p1.den - p1.num * p0.den;
    let dv: i128 = p0.num * p1.den * p2.den - 2 * p1.num * p0.den * p2.den
        + p2.num * p0.den * p1.den;
    let nn: i128 = p0.num * p1.den * dv - s * s * p2.den;
    let dd: i128 = p0.den * p1.den * dv;
    if dv >= 0 {
        Frac { num: nn, den: dd }
    } else {
        Frac { num: -nn, den: -dd }
    }
}


/// Bound accepted for the numerator and denominator of the endpoints of a
/// `split_range`, and the grid used by the flattening routines.
pub open spec fn grid_limit() -> int {
    0x10_0000
}

/// Linear interpolation `p + (q - p) * t`, over the common denominator
/// `p.d * q.d * t.d`.
pub open spec fn lerp1(p: Rat, q: Rat, t: Rat) -> Rat {
    Rat {
        n: p.n * q.d * (t.d - t.n) + q.n * p.d * t.n,
        d: p.d * q.d * t.d,
    }
}

/// Specification-level interpolation of two points.
pub open spec fn lerp_point(p: RPoint, q: RPoint, t: Rat) -> RPoint {
    RPoint { x: lerp1(p.x, q.x, t), y: lerp1(p.y, q.y, t) }
}

/// Exact linear interpolation of one coordinate.
pub(crate) fn lerp_frac(p: &Frac, q: &Frac, t: &Frac) -> (r: Frac)
    requires
        p.bounded(coord_limit()),
        q.bounded(coord_limit()),
        t.bounded(param_limit()),
    ensures
        r@ == lerp1(p@, q@, t@),
        r.wf(),
{
    proof {
        let c: int = coord_limit();
        let tm: int = param_limit();
        let ui: int = t@.d - t@.n;
        lemma_abs_mul(p@.n, q@.d, c, c);
        lemma_abs_mul(p@.n * q@.d, ui, c * c, 2 * tm);
        lemma_abs_mul(q@.n, p@.d, c, c);
        lemma_abs_mul(q@.n * p@.d, t@.n, c * c, tm);
        lemma_abs_mul(p@.d, q@.d, c, c);
        lemma_abs_mul(p@.d * q@.d, t@.d, c * c, tm);
    }
    let u: i128 = t.den - t.num;
    Frac {
        num: p.num * q.den * u + q.num * p.den * t.num,
        den: p.den * q.den * t.den,
    }
}

/// Exact interpolation of two points.
pub(crate) fn lerp_pt(p: &Point, q: &Point, t: &Frac) -> (r: Point)
    requires
        p.bounded(coord_limit()),
        q.bounded(coord_limit()),
        t.bounded(param_limit()),
    ensures
        r@ == lerp_point(p@, q@, t@),
        r.wf(),
{
    Point { x: lerp_frac(&p.x, &q.x, t), y: lerp_frac(&p.y, &q.y, t) }
}

/// Control point of the sub-curve of `split_range`: the blossom value
/// `lerp(lerp(p0, p1, t1), lerp(p1, p2, t1), t2)`, over the common
/// denominator `p0.d * p1.d * p2.d * t1.d * t2.d`.
pub open spec fn srctrl1(p0: Rat, p1: Rat, p2: Rat, t1: Rat, t2: Rat) -> Rat {
    let u1 = t1.d - t1.n;
    let u2 = t2.d - t2.n;
    Rat {
        n: (p0.n * p1.d * u1 + p1.n * p0.d * t1.n) * p2.d * u2
            + (p1.n * p2.d * u1 + p2.n * p1.d * t1.n) * p0.d * t2.n,
        d: p0.d * p1.d * p2.d * t1.d * t2.d,
    }
}

/// Exact computation of the `split_range` control coordinate.
pub(crate) fn srctrl_frac(p0: &Frac, p1: &Frac, p2: &Frac, t1: &Frac, t2: &Frac) -> (r: Frac)
    requires
        p0.bounded(coord_limit()),
        p1.bounded(coord_limit()),
        p2.bounded(coord_limit()),
        t1.bounded(grid_limit()),
        t2.bounded(grid_limit()),
    ensures
        r@ == srctrl1(p0@, p1@, p2@, t1@, t2@),
        r.wf(),
        r.bounded(0x20_0000_0000_0000_0000_0000_0000),
{
    let u1: i128 = t1.den - t1.num;
    let u2: i128 = t2.den - t2.num;
    proof {
        lemma_abs_mul(p0@.n, p1@.d, coord_limit(), coord_limit());
        lemma_abs_mul(p0@.n * p1@.d, u1 as int, coord_limit() * coord_limit(), 2 * grid_limit());
        lemma_abs_mul(p1@.n, p0@.d, coord_limit(), coord_limit());
        lemma_abs_mul(p1@.n * p0@.d, t1@.n, coord_limit() * coord_limit(), grid_limit());
    }
    let a1: i128 = p0.num * p1.den * u1 + p1.num * p0.den * t1.num;
    proof {
        assert(in_i128(a1 as int * p2@.d) && in_i128(a1 as int * p2@.d * (u2 as int))
            && (-0x1_0000_0000_0000_0000_0000int <= a1 as int * p2@.d * (u2 as int))
            && (a1 as int * p2@.d * (u2 as int) <= 0x1_0000_0000_0000_0000_0000int))
            by (nonlinear_arith)
            requires
                -0x3000_0000_0000 <= a1 as int <= 0x3000_0000_0000,
                0 < p2@.d <= 4096,
                -0x20_0000 <= u2 as int <= 0x20_0000,
        ;
    }
    let term1: i128 = a1 * p2.den * u2;
    proof {
        lemma_abs_mul(p1@.n, p2@.d, coord_limit(), coord_limit());
        lemma_abs_mul(p1@.n * p2@.d, u1 as int, coord_limit() * coord_limit(), 2 * grid_limit());
        lemma_abs_mul(p2@.n, p1@.d, coord_limit(), coord_limit());
        lemma_abs_mul(p2@.n * p1@.d, t1@.n, coord_limit() * coord_limit(), grid_limit());
    }
    let a2: i128 = p1.num * p2.den * u1 + p2.num * p1.den * t1.num;
    proof {
        assert(in_i128(a2 as int * p0@.d) && in_i128(a2 as int * p0@.d * (t2@.n))
            && (-0x1_0000_0000_0000_0000_0000int <= a2 as int * p0@.d * (t2@.n))
            && (a2 as int * p0@.d * (t2@.n) <= 0x1_0000_0000_0000_0000_0000int))
            by (nonlinear_arith)
            requires
                -0x3000_0000_0000 <= a2 as int <= 0x3000_0000_0000,
                0 < p0@.d <= 4096,
                -0x10_0000 <= t2@.n <= 0x10_0000,
        ;
        assert(in_i128(p0@.d * p1@.d) && in_i128(p0@.d * p1@.d * p2@.d)
            && in_i128(p0@.d * p1@.d * p2@.d * t1@.d)
            && in_i128(p0@.d * p1@.d * p2@.d * t1@.d * t2@.d)
            && (0 < p0@.d * p1@.d * p2@.d * t1@.d * t2@.d)
            && (p0@.d * p1@.d * p2@.d * t1@.d * t2@.d
                <= 0x1_0000_0000_0000_0000_0000int))
            by (nonlinear_arith)
            requires
                0 < p0@.d <= 4096,
                0 < p1@.d <= 4096,
                0 < p2@.d <= 4096,
                0 < t1@.d <= 0x10_0000,
                0 < t2@.d <= 0x10_0000,
        ;
    }
    let term2: i128 = a2 * p0.den * t2.num;
    let dd: i128 = p0.den * p1.den * p2.den * t1.den * t2.den;
    Frac { num: term1 + term2, den: dd }
}

/// One coordinate of degree elevation: `(p0 + 2*p1) / 3`.
pub open spec fn elev1(p0: Rat, p1: Rat) -> Rat {
    Rat { n: p0.n * p1.d + 2 * p1.n * p0.d, d: 3 * p0.d * p1.d }
}

pub(crate) fn elev_frac(p0: &Frac, p1: &Frac) -> (r: Frac)
    requires
        p0.bounded(coord_limit()),
        p1.bounded(coord_limit()),
    ensures
        r@ == elev1(p0@, p1@),
        r.wf(),
{
    proof {
        let c: int = coord_limit();
        lemma_abs_mul(p0@.n, p1@.d, c, c);
        lemma_abs_mul(2 * p1@.n, p0@.d, 2 * c, c);
        lemma_abs_mul(3 * p0@.d, p1@.d, 3 * c, c);
        assert(3 * p0@.d * p1@.d > 0) by (nonlinear_arith)
            requires
                p0@.d > 0,
                p1@.d > 0,
        ;
    }
    Frac { num: p0.num * p1.den + 2 * p1.num * p0.den, den: 3 * p0.den * p1.den }
}

/// The smaller of two values, then of three; chosen exactly as the
/// executable comparisons choose it.
pub open spec fn rat_min3(a: Rat, b: Rat, c: Rat) -> Rat {
    let m = if rat_lt(b, a) { b } else { a };
    if rat_lt(c, m) { c } else { m }
}

pub open spec fn rat_max3(a: Rat, b: Rat, c: Rat) -> Rat {
    let m = if rat_lt(a, b) { b } else { a };
    if rat_lt(m, c) { c } else { m }
}

/// Smallest of three bounded values, with the order facts proved.
pub(crate) fn min3(a: &Frac, b: &Frac, c: &Frac) -> (r: Frac)
    requires
        a.bounded(coord_limit()),
        b.bounded(coord_limit()),
        c.bounded(coord_limit()),
    ensures
        r@ == rat_min3(a@, b@, c@),
        rat_le(r@, a@),
        rat_le(r@, b@),
        rat_le(r@, c@),
        r.wf(),
        r.bounded(coord_limit()),
{
    proof {
        let cl: int = coord_limit();
        lemma_abs_mul(a@.n, b@.d, cl, cl);
        lemma_abs_mul(b@.n, a@.d, cl, cl);
        lemma_abs_mul(a@.n, c@.d, cl, cl);
        lemma_abs_mul(c@.n, a@.d, cl, cl);
        lemma_abs_mul(b@.n, c@.d, cl, cl);
        lemma_abs_mul(c@.n, b@.d, cl, cl);
    }
    let m: Frac = if b.lt(a) { *b } else { *a };
    let r: Frac = if c.lt(&m) { *c } else { m };
    proof {
        crate::rat::lemma_rat_le_total(a@, b@);
        crate::rat::lemma_rat_le_total(c@, m@);
        crate::rat::lemma_rat_le_trans(r@, m@, a@);
        crate::rat::lemma_rat_le_trans(r@, m@, b@);
    }
    r
}

/// Largest of three bounded values, with the order facts proved.
pub(crate) fn max3(a: &Frac, b: &Frac, c: &Frac) -> (r: Frac)
    requires
        a.bounded(coord_limit()),
        b.bounded(coord_limit()),
        c.bounded(coord_limit()),
    ensures
        r@ == rat_max3(a@, b@, c@),
        rat_le(a@, r@),
        rat_le(b@, r@),
        rat_le(c@, r@),
        r.wf(),
        r.bounded(coord_limit()),
{
    proof {
        let cl: int = coord_limit();
        lemma_abs_mul(a@.n, b@.d, cl, cl);
        lemma_abs_mul(b@.n, a@.d, cl, cl);
        lemma_abs_mul(a@.n, c@.d, cl, cl);
        lemma_abs_mul(c@.n, a@.d, cl, cl);
        lemma_abs_mul(b@.n, c@.d, cl, cl);
        lemma_abs_mul(c@.n, b@.d, cl, cl);
    }
    let m: Frac = if a.lt(b) { *b } else { *a };
    let r: Frac = if m.lt(c) { *c } else { m };
    proof {
        crate::rat::lemma_rat_le_total(a@, b@);
        crate::rat::lemma_rat_le_total(m@, c@);
        crate::rat::lemma_rat_le_trans(a@, m@, r@);
        crate::rat::lemma_rat_le_trans(b@, m@, r@);
    }
    r
}

/// Whether the coordinate has an interior local extremum: the quadratic
/// coefficient is nonzero and the root lies strictly inside (0, 1).
pub open spec fn has_interior_ext(p0: Rat, p1: Rat, p2: Rat) -> bool {
    ext_den(p0, p1, p2) != 0 && rat_lt(rat_zero(), ext1(p0, p1, p2))
        && rat_lt(ext1(p0, p1, p2), rat_one())
}

/// The parameter of the least value of one coordinate over [0, 1]:
/// the interior extremum if it exists and its value `extval1` is strictly
/// below both endpoint values, else the endpoint with the smaller value.
/// Endpoint ties resolve to the start of the curve, `t == 0` — minima
/// resolve ties the opposite way from maxima, and the asymmetry is kept
/// deliberately.
pub open spec fn min_param1(p0: Rat, p1: Rat, p2: Rat) -> Rat {
    if has_interior_ext(p0, p1, p2) && rat_lt(extval1(p0, p1, p2), p0)
        && rat_lt(extval1(p0, p1, p2), p2) {
        ext1(p0, p1, p2)
    } else if rat_le(p0, p2) {
        rat_zero()
    } else {
        rat_one()
    }
}

/// The parameter of the greatest value of one coordinate over [0, 1];
/// ties between the endpoints resolve to `t == 1`.
pub open spec fn max_param1(p0: Rat, p1: Rat, p2: Rat) -> Rat {
    if has_interior_ext(p0, p1, p2) && rat_lt(p0, extval1(p0, p1, p2))
        && rat_lt(p2, extval1(p0, p1, p2)) {
        ext1(p0, p1, p2)
    } else if rat_lt(p2, p0) {
        rat_zero()
    } else {
        rat_one()
    }
}

/// The least value of one coordinate over [0, 1], as selected by
/// `min_param1`.
pub open spec fn min_value1(p0: Rat, p1: Rat, p2: Rat) -> Rat {
    if has_interior_ext(p0, p1, p2) && rat_lt(extval1(p0, p1, p2), p0)
        && rat_lt(extval1(p0, p1, p2), p2) {
        extval1(p0, p1, p2)
    } else if rat_le(p0, p2) {
        p0
    } else {
        p2
    }
}

pub open spec fn max_value1(p0: Rat, p1: Rat, p2: Rat) -> Rat {
    if has_interior_ext(p0, p1, p2) && rat_lt(p0, extval1(p0, p1, p2))
        && rat_lt(p2, extval1(p0, p1, p2)) {
        extval1(p0, p1, p2)
    } else if rat_lt(p2, p0) {
        p0
    } else {
        p2
    }
}

/// Bound on the components of `extval1` from coordinates within
/// `coord_limit`.
pub open spec fn extval_limit() -> int {
    8int * 4096 * 4096 * 4096 * 4096 * 4096
}

/// Computes the parameter selected by `min_param1`.
pub(crate) fn axis_min_param(p0: &Frac, p1: &Frac, p2: &Frac) -> (r: Frac)
    requires
        p0.bounded(coord_limit()),
        p1.bounded(coord_limit()),
        p2.bounded(coord_limit()),
    ensures
        r@ == min_param1(p0@, p1@, p2@),
        r.wf(),
        r.bounded(4 * coord_limit() * coord_limit() * coord_limit()),
        rat_le(rat_zero(), r@),
        rat_le(r@, rat_one()),
{
    if let Some(t) = local_extremum(p0, p1, p2) {
        let v: Frac = local_extremum_value(p0, p1, p2);
        proof {
            let c: int = coord_limit();
            lemma_abs_mul(v@.n, p0@.d, extval_limit(), c);
            lemma_abs_mul(p0@.n, v@.d, c, extval_limit());
            lemma_abs_mul(v@.n, p2@.d, extval_limit(), c);
            lemma_abs_mul(p2@.n, v@.d, c, extval_limit());
        }
        if v.lt(p0) && v.lt(p2) {
            return t;
        }
    }
    proof {
        let c: int = coord_limit();
        lemma_abs_mul(p0@.n, p2@.d, c, c);
        lemma_abs_mul(p2@.n, p0@.d, c, c);
    }
    if p0.le(p2) {
        Frac::zero()
    } else {
        Frac::one()
    }
}

/// Computes the parameter selected by `max_param1`.
pub(crate) fn axis_max_param(p0: &Frac, p1: &Frac, p2: &Frac) -> (r: Frac)
    requires
        p0.bounded(coord_limit()),
        p1.bounded(coord_limit()),
        p2.bounded(coord_limit()),
    ensures
        r@ == max_param1(p0@, p1@, p2@),
        r.wf(),
        r.bounded(4 * coord_limit() * coord_limit() * coord_limit()),
        rat_le(rat_zero(), r@),
        rat_le(r@, rat_one()),
{
    if let Some(t) = local_extremum(p0, p1, p2) {
        let v: Frac = local_extremum_value(p0, p1, p2);
        proof {
            let c: int = coord_limit();
            lemma_abs_mul(v@.n, p0@.d, extval_limit(), c);
            lemma_abs_mul(p0@.n, v@.d, c, extval_limit());
            lemma_abs_mul(v@.n, p2@.d, extval_limit(), c);
            lemma_abs_mul(p2@.n, v@.d, c, extval_limit());
        }
        if p0.lt(&v) && p2.lt(&v) {
            return t;
        }
    }
    proof {
        let c: int = coord_limit();
        lemma_abs_mul(p0@.n, p2@.d, c, c);
        lemma_abs_mul(p2@.n, p0@.d, c, c);
    }
    if p2.lt(p0) {
        Frac::zero()
    } else {
        Frac::one()
    }
}

/// Computes the value selected by `min_value1`.
pub(crate) fn axis_min_value(p0: &Frac, p1: &Frac, p2: &Frac) -> (r: Frac)
    requires
        p0.bounded(coord_limit()),
        p1.bounded(coord_limit()),
        p2.bounded(coord_limit()),
    ensures
        r@ == min_value1(p0@, p1@, p2@),
        r.wf(),
        r.bounded(extval_limit()),
        r@.d <= 4 * coord_limit() * coord_limit() * coord_limit() * coord_limit() * coord_limit(),
{
    if let Some(_t) = local_extremum(p0, p1, p2) {
        let v: Frac = local_extremum_value(p0, p1, p2);
        proof {
            let c: int = coord_limit();
            lemma_abs_mul(v@.n, p0@.d, extval_limit(), c);
            lemma_abs_mul(p0@.n, v@.d, c, extval_limit());
            lemma_abs_mul(v@.n, p2@.d, extval_limit(), c);
            lemma_abs_mul(p2@.n, v@.d, c, extval_limit());
        }
        if v.lt(p0) && v.lt(p2) {
            return v;
        }
    }
    proof {
        let c: int = coord_limit();
        lemma_abs_mul(p0@.n, p2@.d, c, c);
        lemma_abs_mul(p2@.n, p0@.d, c, c);
    }
    if p0.le(p2) {
        *p0
    } else {
        *p2
    }
}

/// Computes the value selected by `max_value1`.
pub(crate) fn axis_max_value(p0: &Frac, p1: &Frac, p2: &Frac) -> (r: Frac)
    requires
        p0.bounded(coord_limit()),
        p1.bounded(coord_limit()),
        p2.bounded(coord_limit()),
    ensures
        r@ == max_value1(p0@, p1@, p2@),
        r.wf(),
        r.bounded(extval_limit()),
        r@.d <= 4 * coord_limit() * coord_limit() * coord_limit() * coord_limit() * coord_limit(),
{
    if let Some(_t) = local_extremum(p0, p1, p2) {
        let v: Frac = local_extremum_value(p0, p1, p2);
        proof {
            let c: int = coord_limit();
            lemma_abs_mul(v@.n, p0@.d, extval_limit(), c);
            lemma_abs_mul(p0@.n, v@.d, c, extval_limit());
            lemma_abs_mul(v@.n, p2@.d, extval_limit(), c);
            lemma_abs_mul(p2@.n, v@.d, c, extval_limit());
        }
        if p0.lt(&v) && p2.lt(&v) {
            return v;
        }
    }
    proof {
        let c: int = coord_limit();
        lemma_abs_mul(p0@.n, p2@.d, c, c);
        lemma_abs_mul(p2@.n, p0@.d, c, c);
    }
    if p2.lt(p0) {
        *p0
    } else {
        *p2
    }
}


/// Applies an affine transform to one point, exactly.
pub(crate) fn transform_point(m: &Transform, p: &Point) -> (r: Point)
    requires
        m.bounded(coord_limit()),
        p.bounded(coord_limit()),
    ensures
        r@ == transform_apply(*m, p@),
        r.wf(),
{
    proof {
        let c: int = coord_limit();
        lemma_abs_mul(m.m11@.n, p@.x.n, c, c);
        lemma_abs_mul(m.m21@.d, p@.y.d, c, c);
        lemma_abs_mul(m.m11@.n * p@.x.n, m.m21@.d * p@.y.d, c * c, c * c);
        lemma_abs_mul(m.m21@.n, p@.y.n, c, c);
        lemma_abs_mul(m.m11@.d, p@.x.d, c, c);
        lemma_abs_mul(m.m21@.n * p@.y.n, m.m11@.d * p@.x.d, c * c, c * c);
        lemma_abs_mul(m.m11@.d * p@.x.d, m.m21@.d * p@.y.d, c * c, c * c);
        lemma_abs_mul(m.m12@.n, p@.x.n, c, c);
        lemma_abs_mul(m.m22@.d, p@.y.d, c, c);
        lemma_abs_mul(m.m12@.n * p@.x.n, m.m22@.d * p@.y.d, c * c, c * c);
        lemma_abs_mul(m.m22@.n, p@.y.n, c, c);
        lemma_abs_mul(m.m12@.d, p@.x.d, c, c);
        lemma_abs_mul(m.m22@.n * p@.y.n, m.m12@.d * p@.x.d, c * c, c * c);
        lemma_abs_mul(m.m12@.d * p@.x.d, m.m22@.d * p@.y.d, c * c, c * c);
    }
    let n1: i128 = (m.m11.num * p.x.num) * (m.m21.den * p.y.den)
        + (m.m21.num * p.y.num) * (m.m11.den * p.x.den);
    let d1: i128 = (m.m11.den * p.x.den) * (m.m21.den * p.y.den);
    let n2: i128 = (m.m12.num * p.x.num) * (m.m22.den * p.y.den)
        + (m.m22.num * p.y.num) * (m.m12.den * p.x.den);
    let d2: i128 = (m.m12.den * p.x.den) * (m.m22.den * p.y.den);
    proof {
        assert(in_i128(n1 as int * m.m31@.d) && in_i128(m.m31@.n * (d1 as int))
            && in_i128(n1 as int * m.m31@.d + m.m31@.n * (d1 as int))
            && in_i128(d1 as int * m.m31@.d) && d1 as int * m.m31@.d > 0)
            by (nonlinear_arith)
            requires
                -0x2_0000_0000_0000 <= n1 as int <= 0x2_0000_0000_0000,
                0 < d1 as int <= 0x1_0000_0000_0000,
                -4096 <= m.m31@.n <= 4096,
                0 < m.m31@.d <= 4096,
        ;
        assert(in_i128(n2 as int * m.m32@.d) && in_i128(m.m32@.n * (d2 as int))
            && in_i128(n2 as int * m.m32@.d + m.m32@.n * (d2 as int))
            && in_i128(d2 as int * m.m32@.d) && d2 as int * m.m32@.d > 0)
            by (nonlinear_arith)
            requires
                -0x2_0000_0000_0000 <= n2 as int <= 0x2_0000_0000_0000,
                0 < d2 as int <= 0x1_0000_0000_0000,
                -4096 <= m.m32@.n <= 4096,
                0 < m.m32@.d <= 4096,
        ;
    }
    Point {
        x: Frac { num: n1 * m.m31.den + m.m31.num * d1, den: d1 * m.m31.den },
        y: Frac { num: n2 * m.m32.den + m.m32.num * d2, den: d2 * m.m32.den },
    }
}

/// Whether all six control coordinates are integers (denominator 1);
/// `is_linear` and `fat_line` work on such segments.
pub open spec fn seg_integral(q: RQuad) -> bool {
    q.from.x.d == 1 && q.from.y.d == 1 && q.ctrl.x.d == 1 && q.ctrl.y.d == 1 && q.to.x.d == 1
        && q.to.y.d == 1
}

/// Coefficients of the baseline equation `a*x + b*y + c == 0` through
/// `from` and `to`, for a segment with integer coordinates.
pub open spec fn baseline_a(q: RQuad) -> int {
    q.from.y.n - q.to.y.n
}

pub open spec fn baseline_b(q: RQuad) -> int {
    q.to.x.n - q.from.x.n
}

pub open spec fn baseline_c(q: RQuad) -> int {
    q.from.x.n * q.to.y.n - q.to.x.n * q.from.y.n
}

/// The baseline equation evaluated at the control point: zero exactly
/// when the three points are collinear, and its sign tells the side of
/// the baseline the control point lies on.
pub open spec fn ctrl_side(q: RQuad) -> int {
    baseline_a(q) * q.ctrl.x.n + baseline_b(q) * q.ctrl.y.n + baseline_c(q)
}

/// The squared distance between the endpoints of a segment with integer
/// coordinates.
pub open spec fn endpoint_gap(q: RQuad) -> int {
    (q.from.x.n - q.to.x.n) * (q.from.x.n - q.to.x.n)
        + (q.from.y.n - q.to.y.n) * (q.from.y.n - q.to.y.n)
}

/// What `is_linear` decides: the endpoints must be distinct, and the
/// perpendicular distance from the control point to the baseline must be
/// below the tolerance; the comparison is written in squared form, which
/// is exact over the rationals.
pub open spec fn is_linear_spec(q: RQuad, tol: Rat) -> bool {
    if endpoint_gap(q) == 0 {
        false
    } else {
        0 < tol.n && ctrl_side(q) * ctrl_side(q) * tol.d * tol.d < tol.n * tol.n * endpoint_gap(q)
    }
}

impl QuadraticBezierSegment {
    /// Whether the control point lies within `tolerance` of the line
    /// through the two (distinct) endpoints. The comparison is decided
    /// exactly in squared form, which multiplies six coordinates'
    /// numerators and denominators together; keeping that inside `i128`
    /// is why this query, like `fat_line`, asks for integer coordinates
    /// (`seg_integral`). Scale a rational segment onto integers first.
    pub fn is_linear(&self, tolerance: &Frac) -> (r: bool)
        requires
            self.bounded(coord_limit()),
            seg_integral(self@),
            tolerance.wf(),
            tolerance.bounded(0x4000_0000),
        ensures
            r == is_linear_spec(self@, tolerance@),
    {
        let dx: i128 = self.from.x.num - self.to.x.num;
        let dy: i128 = self.from.y.num - self.to.y.num;
        proof {
            assert(in_i128((dx as int) * (dx as int)) && in_i128((dy as int) * (dy as int))
                && in_i128((dx as int) * (dx as int) + (dy as int) * (dy as int))
                && (dx as int) * (dx as int) + (dy as int) * (dy as int) >= 0
                && (dx as int) * (dx as int) + (dy as int) * (dy as int) <= 0x1000_0000)
                by (nonlinear_arith)
                requires
                    -8192 <= dx as int <= 8192,
                    -8192 <= dy as int <= 8192,
            ;
        }
        let gap: i128 = dx * dx + dy * dy;
        if gap == 0 {
            return false;
        }
        let a: i128 = self.from.y.num - self.to.y.num;
        let b: i128 = self.to.x.num - self.from.x.num;
        proof {
            lemma_abs_mul(self@.from.x.n, self@.to.y.n, 4096, 4096);
            lemma_abs_mul(self@.to.x.n, self@.from.y.n, 4096, 4096);
            lemma_abs_mul(a as int, self@.ctrl.x.n, 8192, 4096);
            lemma_abs_mul(b as int, self@.ctrl.y.n, 8192, 4096);
        }
        let cc: i128 = self.from.x.num * self.to.y.num - self.to.x.num * self.from.y.num;
        let side: i128 = a * self.ctrl.x.num + b * self.ctrl.y.num + cc;
        proof {
            assert(in_i128((side as int) * (side as int))
                && in_i128((side as int) * (side as int) * tolerance@.d)
                && in_i128((side as int) * (side as int) * tolerance@.d * tolerance@.d)
                && in_i128(tolerance@.n * tolerance@.n)
                && in_i128(tolerance@.n * tolerance@.n * (gap as int)))
                by (nonlinear_arith)
                requires
                    -0x800_0000 <= side as int <= 0x800_0000,
                    0 < tolerance@.d <= 0x4000_0000,
                    -0x4000_0000 <= tolerance@.n <= 0x4000_0000,
                    0 <= gap as int <= 0x1000_0000,
            ;
        }
        0 < tolerance.num
            && side * side * tolerance.den * tolerance.den
                < tolerance.num * tolerance.num * gap
    }

    /// Two parallel line equations that bound the curve: the baseline
    /// and its offset by half the signed distance of the control point,
    /// ordered so that the first lies on the nonnegative side. Both
    /// endpoints lie on or between the two lines (the clauses below say
    /// so over `line_eval`); the control point sits on the baseline's
    /// side of the band at twice its reach, which is exactly why the
    /// half-distance band contains the whole curve — at parameter `t`
    /// the baseline evaluation of the curve is `2*t*(1-t)`, at most one
    /// half, of the control point's. As with `is_linear`, the
    /// coefficients are exact only because the coordinates are integers
    /// (`seg_integral`); scale a rational segment onto integers first.
    pub fn fat_line(&self) -> (r: (LineEquation, LineEquation))
        requires
            self.bounded(coord_limit()),
            seg_integral(self@),
        ensures
            r.0.a@ == (Rat { n: baseline_a(self@), d: 1 }),
            r.0.b@ == (Rat { n: baseline_b(self@), d: 1 }),
            r.1.a@ == (Rat { n: baseline_a(self@), d: 1 }),
            r.1.b@ == (Rat { n: baseline_b(self@), d: 1 }),
            ctrl_side(self@) >= 0 ==> r.0.c@ == (Rat { n: baseline_c(self@), d: 1 })
                && r.1.c@ == (Rat { n: 2 * baseline_c(self@) - ctrl_side(self@), d: 2 }),
            ctrl_side(self@) < 0 ==> r.1.c@ == (Rat { n: baseline_c(self@), d: 1 })
                && r.0.c@ == (Rat { n: 2 * baseline_c(self@) - ctrl_side(self@), d: 2 }),
            rat_le(rat_zero(), line_eval(r.0, self@.from)),
            rat_le(rat_zero(), line_eval(r.0, self@.to)),
            rat_le(line_eval(r.1, self@.from), rat_zero()),
            rat_le(line_eval(r.1, self@.to), rat_zero()),
            ctrl_side(self@) >= 0 ==> rat_le(rat_zero(), line_eval(r.0, self@.ctrl)),
            ctrl_side(self@) < 0 ==> rat_le(line_eval(r.1, self@.ctrl), rat_zero()),
    {
        let a: i128 = self.from.y.num - self.to.y.num;
        let b: i128 = self.to.x.num - self.from.x.num;
        proof {
            lemma_abs_mul(self@.from.x.n, self@.to.y.n, 4096, 4096);
            lemma_abs_mul(self@.to.x.n, self@.from.y.n, 4096, 4096);
            lemma_abs_mul(a as int, self@.ctrl.x.n, 8192, 4096);
            lemma_abs_mul(b as int, self@.ctrl.y.n, 8192, 4096);
        }
        let cc: i128 = self.from.x.num * self.to.y.num - self.to.x.num * self.from.y.num;
        let side: i128 = a * self.ctrl.x.num + b * self.ctrl.y.num + cc;
        let l1 = LineEquation {
            a: Frac { num: a, den: 1 },
            b: Frac { num: b, den: 1 },
            c: Frac { num: cc, den: 1 },
        };
        let l2 = LineEquation {
            a: Frac { num: a, den: 1 },
            b: Frac { num: b, den: 1 },
            c: Frac { num: 2 * cc - side, den: 2 },
        };
        if side >= 0 {
            proof {
                assert(rat_le(rat_zero(), line_eval(l1, self@.from))
                    && rat_le(rat_zero(), line_eval(l1, self@.to))
                    && rat_le(line_eval(l2, self@.from), rat_zero())
                    && rat_le(line_eval(l2, self@.to), rat_zero())
                    && rat_le(rat_zero(), line_eval(l1, self@.ctrl)))
                    by (nonlinear_arith)
                    requires
                        l1.a@ == (Rat { n: self@.from.y.n - self@.to.y.n, d: 1 }),
                        l1.b@ == (Rat { n: self@.to.x.n - self@.from.x.n, d: 1 }),
                        l1.c@ == (Rat {
                            n: self@.from.x.n * self@.to.y.n - self@.to.x.n * self@.from.y.n,
                            d: 1,
                        }),
                        l2.a@ == l1.a@,
                        l2.b@ == l1.b@,
                        l2.c@ == (Rat { n: 2 * (self@.from.x.n * self@.to.y.n
                            - self@.to.x.n * self@.from.y.n) - side as int, d: 2 }),
                        self@.from.x.d == 1,
                        self@.from.y.d == 1,
                        self@.ctrl.x.d == 1,
                        self@.ctrl.y.d == 1,
                        self@.to.x.d == 1,
                        self@.to.y.d == 1,
                        side as int == (self@.from.y.n - self@.to.y.n) * self@.ctrl.x.n
                            + (self@.to.x.n - self@.from.x.n) * self@.ctrl.y.n
                            + (self@.from.x.n * self@.to.y.n - self@.to.x.n * self@.from.y.n),
                        side as int >= 0,
                ;
            }
            (l1, l2)
        } else {
            proof {
                assert(rat_le(rat_zero(), line_eval(l2, self@.from))
                    && rat_le(rat_zero(), line_eval(l2, self@.to))
                    && rat_le(line_eval(l1, self@.from), rat_zero())
                    && rat_le(line_eval(l1, self@.to), rat_zero())
                    && rat_le(line_eval(l1, self@.ctrl), rat_zero()))
                    by (nonlinear_arith)
                    requires
                        l1.a@ == (Rat { n: self@.from.y.n - self@.to.y.n, d: 1 }),
                        l1.b@ == (Rat { n: self@.to.x.n - self@.from.x.n, d: 1 }),
                        l1.c@ == (Rat {
                            n: self@.from.x.n * self@.to.y.n - self@.to.x.n * self@.from.y.n,
                            d: 1,
                        }),
                        l2.a@ == l1.a@,
                        l2.b@ == l1.b@,
                        l2.c@ == (Rat { n: 2 * (self@.from.x.n * self@.to.y.n
                            - self@.to.x.n * self@.from.y.n) - side as int, d: 2 }),
                        self@.from.x.d == 1,
                        self@.from.y.d == 1,
                        self@.ctrl.x.d == 1,
                        self@.ctrl.y.d == 1,
                        self@.to.x.d == 1,
                        self@.to.y.d == 1,
                        side as int == (self@.from.y.n - self@.to.y.n) * self@.ctrl.x.n
                            + (self@.to.x.n - self@.from.x.n) * self@.ctrl.y.n
                            + (self@.from.x.n * self@.to.y.n - self@.to.x.n * self@.from.y.n),
                        (side as int) < 0,
                ;
            }
            (l2, l1)
        }
    }

    /// Wraps the segment in the monotonic marker type without checking
    /// monotonicity; the caller vouches for it.
    pub fn assume_monotonic(&self) -> (r: crate::monotonic::MonotonicQuadraticBezierSegment)
        ensures
            r@ == self@,
    {
        crate::monotonic::MonotonicQuadraticBezierSegment::new_unchecked(*self)
    }
}


/// The sub-curve before a split, at the specification level.
pub open spec fn before_split_spec(q: RQuad, t: Rat) -> RQuad {
    RQuad { from: q.from, ctrl: lerp_point(q.from, q.ctrl, t), to: eval_point(q, t) }
}

/// The sub-curve after a split, at the specification level.
pub open spec fn after_split_spec(q: RQuad, t: Rat) -> RQuad {
    RQuad { from: eval_point(q, t), ctrl: lerp_point(q.ctrl, q.to, t), to: q.to }
}

/// Splitting at `t` and re-sampling each half at its local endpoint
/// reproduces the whole curve's sample: the first half sampled at 1 and
/// the second half sampled at 0 both give `sample(t)` exactly.
pub proof fn lemma_split_halves_meet(q: RQuad, t: Rat, s: Rat)
    requires
        rquad_wf(q),
        rat_wf(t),
        rat_wf(s),
    ensures
        s.n == s.d ==> rpoint_eq(eval_point(before_split_spec(q, t), s), eval_point(q, t)),
        s.n == 0 ==> rpoint_eq(eval_point(after_split_spec(q, t), s), eval_point(q, t)),
{
    lemma_sample_endpoints(q.from.x, q.ctrl.x, q.to.x, t);
    lemma_sample_endpoints(q.from.y, q.ctrl.y, q.to.y, t);
    assert(rat_wf(lerp1(q.from.x, q.ctrl.x, t)) && rat_wf(lerp1(q.from.y, q.ctrl.y, t))
        && rat_wf(lerp1(q.ctrl.x, q.to.x, t)) && rat_wf(lerp1(q.ctrl.y, q.to.y, t)))
        by (nonlinear_arith)
        requires
            q.from.x.d > 0,
            q.from.y.d > 0,
            q.ctrl.x.d > 0,
            q.ctrl.y.d > 0,
            q.to.x.d > 0,
            q.to.y.d > 0,
            t.d > 0,
    ;
    lemma_sample_endpoints(before_split_spec(q, t).from.x, before_split_spec(q, t).ctrl.x,
        before_split_spec(q, t).to.x, s);
    lemma_sample_endpoints(before_split_spec(q, t).from.y, before_split_spec(q, t).ctrl.y,
        before_split_spec(q, t).to.y, s);
    lemma_sample_endpoints(after_split_spec(q, t).from.x, after_split_spec(q, t).ctrl.x,
        after_split_spec(q, t).to.x, s);
    lemma_sample_endpoints(after_split_spec(q, t).from.y, after_split_spec(q, t).ctrl.y,
        after_split_spec(q, t).to.y, s);
    if s.n == s.d {
        crate::rat::lemma_rat_eq_trans(eval_point(before_split_spec(q, t), s).x,
            before_split_spec(q, t).to.x, eval_point(q, t).x);
        crate::rat::lemma_rat_eq_trans(eval_point(before_split_spec(q, t), s).y,
            before_split_spec(q, t).to.y, eval_point(q, t).y);
    }
}

/// A segment with integer coordinates, distinct endpoints and a control
/// point exactly on the baseline is linear for every positive tolerance.
pub proof fn lemma_is_linear_collinear(q: RQuad, tol: Rat)
    by (nonlinear_arith)
    requires
        seg_integral(q),
        ctrl_side(q) == 0,
        endpoint_gap(q) != 0,
        rat_wf(tol),
        tol.n > 0,
    ensures
        is_linear_spec(q, tol),
{
}

/// A segment whose endpoints coincide is never linear, whatever the
/// tolerance: the baseline is degenerate.
pub proof fn lemma_is_linear_degenerate(q: RQuad, tol: Rat)
    requires
        seg_integral(q),
        endpoint_gap(q) == 0,
    ensures
        !is_linear_spec(q, tol),
{
}



/// Sampling at a parameter equal to 0 gives `p0` and at a parameter
/// equal to 1 gives `p2`, exactly.
pub proof fn lemma_sample_endpoints(p0: Rat, p1: Rat, p2: Rat, t: Rat)
    by (nonlinear_arith)
    requires
        rat_wf(p0),
        rat_wf(p1),
        rat_wf(p2),
        rat_wf(t),
    ensures
        t.n == 0 ==> rat_eq(eval1(p0, p1, p2, t), p0),
        t.n == t.d ==> rat_eq(eval1(p0, p1, p2, t), p2),
        rat_wf(eval1(p0, p1, p2, t)),
{
}

} // verus!
