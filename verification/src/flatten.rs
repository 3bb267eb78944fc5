//! Adaptive flattening: approximating the curve by a polyline.
//!
//! The cursor of the iteration is a parameter on a fixed subdivision
//! grid of `grid_limit()` steps; every emitted point is an exact sample
//! of the curve, and each step advances the cursor by at least one grid
//! cell, so the iteration always terminates.

use vstd::prelude::*;
use crate::rat::{Frac, Rat, rat_le, rat_lt, rat_zero, rat_one, in_i128};
use crate::geom::{Point, RPoint};
use crate::quadratic_bezier::{
    QuadraticBezierSegment, RQuad, coord_limit, grid_limit, eval_grid_limit, rquad_bounded,
    eval_point, srctrl1,
};

verus! {

/// Bound accepted by `flattening_step` on the components of the
/// coordinates of the (sub-)curve it measures.
pub open spec fn step_rep_limit() -> int {
    0x20_0000_0000_0000_0000_0000_0000int
}

/// The integer square root at the specification level: the greatest
/// nonnegative `r` with `r * r <= n` (and 0 for nonpositive `n`).
pub open spec fn isqrt_spec(n: int) -> int
    decreases n,
{
    if n <= 0 {
        0
    } else if (isqrt_spec(n - 1) + 1) * (isqrt_spec(n - 1) + 1) <= n {
        isqrt_spec(n - 1) + 1
    } else {
        isqrt_spec(n - 1)
    }
}

/// `isqrt_spec` brackets its argument between consecutive squares.
pub proof fn lemma_isqrt_spec_bounds(n: int)
    ensures
        0 <= isqrt_spec(n),
        n >= 0 ==> isqrt_spec(n) * isqrt_spec(n) <= n,
        n >= 0 ==> n < (isqrt_spec(n) + 1) * (isqrt_spec(n) + 1),
    decreases n,
{
    if n <= 0 {
        assert(0 * 0 == 0) by (nonlinear_arith);
        assert((0 + 1) * (0 + 1) == 1) by (nonlinear_arith);
    } else {
        lemma_isqrt_spec_bounds(n - 1);
        let p = isqrt_spec(n - 1);
        if (p + 1) * (p + 1) <= n {
            assert(n < (p + 1 + 1) * (p + 1 + 1)) by (nonlinear_arith)
                requires
                    0 <= p,
                    n - 1 < (p + 1) * (p + 1),
            ;
        }
    }
}

/// Any nonnegative value bracketed between consecutive squares of `r`
/// is `isqrt_spec` of it: the greatest-root characterization is unique.
pub proof fn lemma_isqrt_unique(n: int, r: int)
    requires
        0 <= r,
        r * r <= n,
        n < (r + 1) * (r + 1),
    ensures
        r == isqrt_spec(n),
{
    assert(n >= 0) by (nonlinear_arith)
        requires
            0 <= r,
            r * r <= n,
    ;
    lemma_isqrt_spec_bounds(n);
    let s = isqrt_spec(n);
    assert(r == s) by (nonlinear_arith)
        requires
            0 <= r,
            0 <= s,
            r * r <= n,
            n < (r + 1) * (r + 1),
            s * s <= n,
            n < (s + 1) * (s + 1),
    ;
}

/// Integer square root by bisection: the greatest `r` with `r * r <= n`.
pub(crate) fn isqrt(n: i128) -> (r: i128)
    requires
        0 <= n < 0x100_0000_0000_0000_0000int,
    ensures
        0 <= r,
        r * r <= n,
        n < (r + 1) * (r + 1),
        r < 0x10_0000_0000,
        r as int == isqrt_spec(n as int),
{
    let mut lo: i128 = 0;
    let mut hi: i128 = 0x10_0000_0000;
    proof {
        assert(0x10_0000_0000int * 0x10_0000_0000 > n) by (nonlinear_arith)
            requires
                n < 0x100_0000_0000_0000_0000int,
        ;
    }
    while hi - lo > 1
        invariant
            0 <= lo < hi <= 0x10_0000_0000,
            lo * lo <= n,
            n < hi * hi,
        decreases hi - lo,
    {
        let mid: i128 = lo + (hi - lo) / 2;
        proof {
            assert(in_i128(mid as int * mid as int)) by (nonlinear_arith)
                requires
                    0 <= (mid as int) <= 0x10_0000_0000,
            ;
        }
        if mid * mid <= n {
            lo = mid;
        } else {
            hi = mid;
        }
    }
    proof {
        lemma_isqrt_unique(n as int, lo as int);
    }
    lo
}

/// The value `snap_clamped` computes: the numerator of the truncation
/// of `v` toward zero onto the grid of `grid_limit()` steps, clamped
/// into the coordinate window of the step estimate.
pub open spec fn snap_spec(v: Rat) -> int {
    let t = if v.n >= 0 {
        (v.n * 0x10_0000) / v.d
    } else {
        -(((-v.n) * 0x10_0000) / v.d)
    };
    if t > 0x1_0000_0000 {
        0x1_0000_0000int
    } else if t < -0x1_0000_0000 {
        -0x1_0000_0000int
    } else {
        t
    }
}

/// Truncates a rational to the subdivision grid and clamps the result
/// into the coordinate window used by the step estimate.
pub(crate) fn snap_clamped(v: &Frac) -> (r: i128)
    requires
        v.wf(),
        v.bounded(step_rep_limit()),
    ensures
        r as int == snap_spec(v@),
        -0x1_0000_0000 <= r <= 0x1_0000_0000,
{
    let lim: i128 = 0x1_0000_0000;
    let q: i128 = 0x10_0000;
    let t: i128 = if v.num >= 0 {
        (v.num * q) / v.den
    } else {
        -((-v.num * q) / v.den)
    };
    proof {
        assert(v@.n >= 0 ==> 0 <= (v@.n * 0x10_0000) / v@.d) by (nonlinear_arith)
            requires
                v@.d > 0,
        ;
        assert(v@.n < 0 ==> 0 <= ((-v@.n) * 0x10_0000) / v@.d) by (nonlinear_arith)
            requires
                v@.d > 0,
        ;
    }
    if t > lim {
        lim
    } else if t < -lim {
        -lim
    } else {
        t
    }
}

/// The step `flattening_step` computes, as a numerator over
/// `grid_limit()`: the control polygon is truncated to the grid, the
/// chord deviation estimate `2 * sqrt(tolerance * |h / cross| / 3)` is
/// evaluated with integer square roots on that grid, a flat polygon
/// (cross product below the fixed epsilon) takes the whole range, and
/// the result is kept within (0, 1].
///
/// The estimate comes from the quadratic's deviation from its initial
/// chord: with `v1 = ctrl - from`, `v2 = to - from`, the perpendicular
/// deviation at parameter `t` is at most `t^2 * |v1 x v2| * 3 / (4 *
/// |v1|)` near the start, so a step of `2 * sqrt(tolerance * |v1| /
/// (3 * |v1 x v2|))` keeps the chord within the tolerance. That
/// analytic bound on the true curve is a theorem of real analysis, not
/// restated here: the contracts fix exactly which step the estimate
/// yields on the quantized polygon.
pub open spec fn step_spec(q: RQuad, tol: Rat) -> int {
    let fx = snap_spec(q.from.x);
    let fy = snap_spec(q.from.y);
    let cx = snap_spec(q.ctrl.x);
    let cy = snap_spec(q.ctrl.y);
    let tx = snap_spec(q.to.x);
    let ty = snap_spec(q.to.y);
    let v1x = cx - fx;
    let v1y = cy - fy;
    let v2x = tx - fx;
    let v2y = ty - fy;
    let cross = v2x * v1y - v2y * v1x;
    let ca = if cross >= 0 { cross } else { -cross };
    let h = isqrt_spec(v1x * v1x + v1y * v1y);
    if ca == 0 || ca * h * 1_000_000 <= 0x10_0000 * 0x10_0000 * 0x10_0000 {
        0x10_0000int
    } else {
        let qvn = tol.n * (h * 0x10_0000);
        let qvd = tol.d * ca * 3;
        if qvn * 4 >= qvd {
            0x10_0000int
        } else {
            let st = 2 * isqrt_spec(qvn * 0x10_0000 * 0x10_0000 / qvd);
            if st == 0 {
                1int
            } else if st >= 0x10_0000 {
                0x10_0000int
            } else {
                st
            }
        }
    }
}

/// The remaining sub-curve at a grid cursor: what `split_range` from
/// `cursor / grid_limit()` to 1 produces.
pub open spec fn remaining_spec(q: RQuad, c: int) -> RQuad {
    RQuad {
        from: eval_point(q, Rat { n: c, d: 0x10_0000 }),
        ctrl: RPoint {
            x: srctrl1(q.from.x, q.ctrl.x, q.to.x, Rat { n: c, d: 0x10_0000 }, rat_one()),
            y: srctrl1(q.from.y, q.ctrl.y, q.to.y, Rat { n: c, d: 0x10_0000 }, rat_one()),
        },
        to: eval_point(q, rat_one()),
    }
}

/// The cursor after one flattening step from `c`: the step of the
/// remaining sub-curve, scaled to the remaining range and rounded up to
/// the grid, clamped to move at least one cell and at most to the end.
pub open spec fn next_cursor_spec(q: RQuad, tol: Rat, c: int) -> int {
    let raw = c + (step_spec(remaining_spec(q, c), tol) * (0x10_0000 - c) + 0x10_0000 - 1)
        / 0x10_0000;
    if raw < c + 1 {
        c + 1
    } else if raw > 0x10_0000 {
        0x10_0000int
    } else {
        raw
    }
}

/// The vertex emitted by one flattening step from cursor `c`: the end
/// point itself on the last step, else the exact sample of the curve at
/// the new cursor.
pub open spec fn emit_spec(q: RQuad, tol: Rat, c: int) -> RPoint {
    if next_cursor_spec(q, tol, c) >= 0x10_0000 {
        q.to
    } else {
        eval_point(q, Rat { n: next_cursor_spec(q, tol, c), d: 0x10_0000 })
    }
}

/// The whole polyline that flattening emits from cursor `c` on, in
/// order; every element is a sample of the curve, the last is the end
/// point.
pub open spec fn polyline_spec(q: RQuad, tol: Rat, c: int) -> Seq<RPoint>
    decreases 0x10_0000 - c,
{
    if c < 0 || c >= 0x10_0000 {
        Seq::empty()
    } else {
        seq![emit_spec(q, tol, c)] + polyline_spec(q, tol, next_cursor_spec(q, tol, c))
    }
}

/// The summed grid lengths of the chords of the polyline from cursor
/// `c` on, starting from the grid-snapped previous vertex `(px, py)`:
/// each chord contributes the integer square root of its squared
/// snapped length, in units of `1 / grid_limit()`.
pub open spec fn plen_spec(q: RQuad, tol: Rat, c: int, px: int, py: int) -> int
    decreases 0x10_0000 - c,
{
    if c < 0 || c >= 0x10_0000 {
        0
    } else {
        let p = emit_spec(q, tol, c);
        let nx = snap_spec(p.x);
        let ny = snap_spec(p.y);
        isqrt_spec((nx - px) * (nx - px) + (ny - py) * (ny - py))
            + plen_spec(q, tol, next_cursor_spec(q, tol, c), nx, ny)
    }
}

/// The polyline emitted from any cursor short of the end is nonempty
/// and its last vertex is the curve's end point.
pub proof fn lemma_polyline_ends_at_to(q: RQuad, tol: Rat, c: int)
    requires
        0 <= c < 0x10_0000,
    ensures
        polyline_spec(q, tol, c).len() >= 1,
        polyline_spec(q, tol, c).last() == q.to,
    decreases 0x10_0000 - c,
{
    let nx = next_cursor_spec(q, tol, c);
    if nx >= 0x10_0000 {
        assert(polyline_spec(q, tol, nx) =~= Seq::<RPoint>::empty());
        assert(polyline_spec(q, tol, c) =~= seq![q.to]);
    } else {
        lemma_polyline_ends_at_to(q, tol, nx);
        assert(polyline_spec(q, tol, c).last() == polyline_spec(q, tol, nx).last());
    }
}

impl QuadraticBezierSegment {
    /// Estimates the largest initial parameter interval `[0, t]` over
    /// which the chord from the start deviates from the curve by no more
    /// than `tolerance`, measured on a grid approximation of the control
    /// polygon. The result is a positive step of at most 1; a curve whose
    /// measured control polygon is flat takes the whole remaining range
    /// in one step.
    pub fn flattening_step(&self, tolerance: &Frac) -> (r: Frac)
        requires
            self.wf(),
            rquad_bounded(self@, step_rep_limit()),
            tolerance.wf(),
            tolerance.bounded(grid_limit()),
            rat_lt(rat_zero(), tolerance@),
        ensures
            r.wf(),
            r@.d == grid_limit(),
            r@.n == step_spec(self@, tolerance@),
            0 < r@.n <= grid_limit(),
            rat_lt(rat_zero(), r@),
            rat_le(r@, rat_one()),
    {
        let q: i128 = 0x10_0000;
        let fx: i128 = snap_clamped(&self.from.x);
        let fy: i128 = snap_clamped(&self.from.y);
        let cx: i128 = snap_clamped(&self.ctrl.x);
        let cy: i128 = snap_clamped(&self.ctrl.y);
        let tx: i128 = snap_clamped(&self.to.x);
        let ty: i128 = snap_clamped(&self.to.y);
        let v1x: i128 = cx - fx;
        let v1y: i128 = cy - fy;
        let v2x: i128 = tx - fx;
        let v2y: i128 = ty - fy;
        proof {
            assert(in_i128(v2x as int * v1y as int) && in_i128(v2y as int * v1x as int)
                && in_i128(v2x as int * v1y as int - v2y as int * v1x as int)
                && (-0x10_0000_0000_0000_0000int
                    <= v2x as int * v1y as int - v2y as int * v1x as int)
                && (v2x as int * v1y as int - v2y as int * v1x as int
                    <= 0x10_0000_0000_0000_0000int)
                && in_i128(v1x as int * v1x as int) && in_i128(v1y as int * v1y as int)
                && in_i128(v1x as int * v1x as int + v1y as int * v1y as int)
                && (0 <= v1x as int * v1x as int + v1y as int * v1y as int)
                && (v1x as int * v1x as int + v1y as int * (v1y as int) < 0x100_0000_0000_0000_0000int))
                by (nonlinear_arith)
                requires
                    -0x2_0000_0000 <= (v1x as int) <= 0x2_0000_0000,
                    -0x2_0000_0000 <= (v1y as int) <= 0x2_0000_0000,
                    -0x2_0000_0000 <= (v2x as int) <= 0x2_0000_0000,
                    -0x2_0000_0000 <= (v2y as int) <= 0x2_0000_0000,
            ;
        }
        let cross: i128 = v2x * v1y - v2y * v1x;
        let cross_abs: i128 = if cross >= 0 { cross } else { -cross };
        let h: i128 = isqrt(v1x * v1x + v1y * v1y);
        proof {
            assert(in_i128(cross_abs as int * h as int)
                && in_i128(cross_abs as int * h as int * 1_000_000)
                && in_i128(0x10_0000int * 0x10_0000 * 0x10_0000))
                by (nonlinear_arith)
                requires
                    0 <= (cross_abs as int) <= 0x10_0000_0000_0000_0000int,
                    0 <= (h as int) < 0x10_0000_0000,
            ;
        }
        if cross_abs == 0 || cross_abs * h * 1_000_000 <= q * q * q {
            proof {
                crate::rat::lemma_unit_den_facts(Rat { n: 0x10_0000, d: 0x10_0000 });
            }
            return Frac { num: q, den: q };
        }
        proof {
            assert(in_i128(h as int * 0x10_0000)
                && in_i128(tolerance@.n * (h as int * 0x10_0000))
                && in_i128(tolerance@.d * cross_abs as int)
                && in_i128(tolerance@.d * cross_abs as int * 3)
                && (tolerance@.d * cross_abs as int * 3 > 0)
                && (tolerance@.n * (h as int * 0x10_0000) >= 0)
                && (tolerance@.n * (h as int * 0x10_0000) <= 0x1_0000_0000_0000_0000_0000int))
                by (nonlinear_arith)
                requires
                    0 < (cross_abs as int) <= 0x10_0000_0000_0000_0000int,
                    0 <= (h as int) < 0x10_0000_0000,
                    0 < tolerance@.n <= 0x10_0000,
                    0 < tolerance@.d <= 0x10_0000,
            ;
            assert(0 < tolerance@.n) by (nonlinear_arith)
                requires
                    0 * tolerance@.d < tolerance@.n * 1,
            ;
        }
        let qvn: i128 = tolerance.num * (h * q);
        let qvd: i128 = tolerance.den * cross_abs * 3;
        proof {
            assert(in_i128(qvn as int * 4)) by (nonlinear_arith)
                requires
                    0 <= (qvn as int) <= 0x1_0000_0000_0000_0000_0000int,
            ;
        }
        if qvn * 4 >= qvd {
            proof {
                crate::rat::lemma_unit_den_facts(Rat { n: 0x10_0000, d: 0x10_0000 });
            }
            return Frac { num: q, den: q };
        }
        proof {
            assert(in_i128(qvn as int * 0x10_0000 * 0x10_0000)
                && (0 <= qvn as int * 0x10_0000 * 0x10_0000))
                by (nonlinear_arith)
                requires
                    0 <= (qvn as int) <= 0x1_0000_0000_0000_0000_0000int,
            ;
            assert(qvn as int * 0x10_0000 * 0x10_0000 / (qvd as int)
                < 0x100_0000_0000_0000_0000int)
                by (nonlinear_arith)
                requires
                    0 <= qvn as int,
                    0 < qvd as int,
                    qvn as int * 4 < qvd as int,
            ;
        }
        let m: i128 = qvn * q * q / qvd;
        let s: i128 = isqrt(m);
        let mut step: i128 = 2 * s;
        if step == 0 {
            step = 1;
        }
        if step >= q {
            proof {
                crate::rat::lemma_unit_den_facts(Rat { n: 0x10_0000, d: 0x10_0000 });
            }
            Frac { num: q, den: q }
        } else {
            proof {
                crate::rat::lemma_unit_den_facts(Rat { n: step as int, d: 0x10_0000 });
            }
            Frac { num: step, den: q }
        }
    }
}

/// A lazy, finite polyline approximation of a curve: each call to `next`
/// produces the next vertex, each an exact sample of the curve, until
/// the end point has been emitted.
pub struct Flattened {
    curve: QuadraticBezierSegment,
    tolerance: Frac,
    cursor: i128,
    done: bool,
}

impl Flattened {
    pub closed spec fn wf(&self) -> bool {
        &&& rquad_bounded(self.curve@, coord_limit())
        &&& self.tolerance.wf()
        &&& self.tolerance.bounded(grid_limit())
        &&& rat_lt(rat_zero(), self.tolerance@)
        &&& 0 <= (self.cursor as int) <= grid_limit()
        &&& (self.done || (self.cursor as int) < grid_limit())
    }

    pub closed spec fn cursor_at(&self) -> int {
        self.cursor as int
    }

    pub closed spec fn is_done(&self) -> bool {
        self.done
    }

    /// The curve being flattened, at the specification level.
    pub closed spec fn curve_view(&self) -> RQuad {
        self.curve@
    }

    /// The tolerance of the iteration, at the specification level.
    pub closed spec fn tol_view(&self) -> Rat {
        self.tolerance@
    }

    /// The curve being flattened.
    pub fn curve(&self) -> (r: QuadraticBezierSegment)
        ensures
            r@ == self.curve_view(),
    {
        self.curve
    }

    pub(crate) fn new(curve: QuadraticBezierSegment, tolerance: Frac) -> (r: Flattened)
        requires
            rquad_bounded(curve@, coord_limit()),
            tolerance.wf(),
            tolerance.bounded(grid_limit()),
            rat_lt(rat_zero(), tolerance@),
        ensures
            r.wf(),
            !r.is_done(),
            r.cursor_at() == 0,
            r.curve_view() == curve@,
            r.tol_view() == tolerance@,
    {
        Flattened { curve, tolerance, cursor: 0, done: false }
    }

    /// The next vertex of the polyline, or `None` once the end point has
    /// been emitted. The cursor advances by at least one grid cell.
    pub fn next(&mut self) -> (r: Option<Point>)
        requires
            old(self).wf(),
        ensures
            final(self).wf(),
            final(self).curve_view() == old(self).curve_view(),
            final(self).tol_view() == old(self).tol_view(),
            match r {
                Some(p) => {
                    &&& p.wf()
                    &&& p.bounded(eval_grid_limit())
                    &&& !old(self).is_done()
                    &&& p@ == emit_spec(old(self).curve_view(), old(self).tol_view(),
                        old(self).cursor_at())
                    &&& final(self).cursor_at() == next_cursor_spec(old(self).curve_view(),
                        old(self).tol_view(), old(self).cursor_at())
                    &&& old(self).cursor_at() < final(self).cursor_at()
                    &&& (final(self).is_done() <==> final(self).cursor_at() == grid_limit())
                },
                None => old(self).is_done() && final(self).is_done()
                    && final(self).cursor_at() == old(self).cursor_at(),
            },
    {
        if self.done {
            return None;
        }
        let ghost c0: int = self.cursor as int;
        let q: i128 = 0x10_0000;
        let t = Frac { num: self.cursor, den: q };
        proof {
            assert(t@ == (Rat { n: self.cursor as int, d: 0x10_0000 }));
            crate::rat::lemma_unit_den_facts(Rat { n: self.cursor as int, d: 0x10_0000 });
            crate::rat::lemma_unit_den_facts(Rat { n: 1, d: 1 });
        }
        let sub: QuadraticBezierSegment = self.curve.split_range(&t, &Frac::one());
        let step: Frac = sub.flattening_step(&self.tolerance);
        let w: i128 = q - self.cursor;
        proof {
            assert(in_i128(step@.n * (w as int)) && in_i128(step@.n * (w as int) + 0x10_0000 - 1))
                by (nonlinear_arith)
                requires
                    0 < step@.n <= 0x10_0000,
                    0 < (w as int) <= 0x10_0000,
            ;
            assert(1 <= step@.n * (w as int)) by (nonlinear_arith)
                requires
                    1 <= step@.n,
                    1 <= w as int,
            ;
            assert(1 <= (step@.n * (w as int) + 0x10_0000 - 1) / 0x10_0000)
                by (nonlinear_arith)
                requires
                    1 <= step@.n * (w as int),
            ;
            assert((step@.n * (w as int) + 0x10_0000 - 1) / 0x10_0000 <= w as int)
                by (nonlinear_arith)
                requires
                    0 < step@.n <= 0x10_0000,
                    0 < (w as int) <= 0x10_0000,
            ;
        }
        let advance: i128 = (step.num * w + q - 1) / q;
        let next_cursor: i128 = self.cursor + advance;
        proof {
            assert(sub@ == remaining_spec(self.curve@, c0));
            assert(advance as int == (step_spec(remaining_spec(self.curve@, c0),
                self.tolerance@) * (0x10_0000 - c0) + 0x10_0000 - 1) / 0x10_0000);
            assert(next_cursor as int >= c0 + 1);
        }
        if next_cursor >= q {
            self.cursor = q;
            self.done = true;
            proof {
                assert(next_cursor_spec(self.curve@, self.tolerance@, c0) == 0x10_0000);
                let c: int = coord_limit();
                assert(rquad_bounded(self.curve@, c) ==> self.curve.to.bounded(c));
            }
            return Some(self.curve.to);
        }
        self.cursor = next_cursor;
        proof {
            assert(next_cursor_spec(self.curve@, self.tolerance@, c0) == next_cursor as int);
        }
        let p: Point = self.curve.sample(&Frac { num: next_cursor, den: q });
        Some(p)
    }
}

impl QuadraticBezierSegment {
    /// The polyline approximation of the curve as a lazy iterator,
    /// starting after the current start point.
    pub fn flattened(&self, tolerance: &Frac) -> (r: Flattened)
        requires
            self.bounded(coord_limit()),
            tolerance.wf(),
            tolerance.bounded(grid_limit()),
            rat_lt(rat_zero(), tolerance@),
        ensures
            r.wf(),
            !r.is_done(),
            r.cursor_at() == 0,
            r.curve_view() == self@,
            r.tol_view() == tolerance@,
    {
        Flattened::new(*self, *tolerance)
    }

    /// The whole polyline approximation, delivered at once: exactly the
    /// vertices that the lazy iterator produces, in order. This is the
    /// push-style companion of `flattened`; it hands back the sequence
    /// as a vector rather than invoking a callback per vertex, which the
    /// verifier cannot specify for an arbitrary callback.
    pub fn flattened_for_each(&self, tolerance: &Frac) -> (r: Vec<Point>)
        requires
            self.bounded(coord_limit()),
            tolerance.wf(),
            tolerance.bounded(grid_limit()),
            rat_lt(rat_zero(), tolerance@),
        ensures
            r@.len() == polyline_spec(self@, tolerance@, 0).len(),
            forall|i: int| 0 <= i < r@.len()
                ==> (#[trigger] r@[i])@ == polyline_spec(self@, tolerance@, 0)[i],
            forall|i: int| 0 <= i < r@.len() ==> #[trigger] r@[i].wf(),
    {
        let mut it: Flattened = Flattened::new(*self, *tolerance);
        let mut out: Vec<Point> = Vec::new();
        loop
            invariant
                it.wf(),
                it.curve_view() == self@,
                it.tol_view() == tolerance@,
                it.is_done() ==> it.cursor_at() == 0x10_0000,
                0 <= it.cursor_at() <= 0x10_0000,
                polyline_spec(self@, tolerance@, 0) =~= out@.map_values(|p: Point| p@)
                    + polyline_spec(self@, tolerance@, it.cursor_at()),
                forall|i: int| 0 <= i < out@.len() ==> #[trigger] out@[i].wf(),
            decreases 0x10_0000 - it.cursor_at() + (if it.is_done() { 0int } else { 1int }),
        {
            let ghost c0: int = it.cursor_at();
            let ghost out0: Seq<Point> = out@;
            let p: Option<Point> = it.next();
            match p {
                Some(v) => {
                    out.push(v);
                    proof {
                        assert(polyline_spec(self@, tolerance@, c0)
                            =~= seq![emit_spec(self@, tolerance@, c0)]
                                + polyline_spec(self@, tolerance@, it.cursor_at()));
                        assert(out@.map_values(|p: Point| p@)
                            =~= out0.map_values(|p: Point| p@) + seq![v@]);
                        assert(polyline_spec(self@, tolerance@, 0)
                            =~= out@.map_values(|p: Point| p@)
                                + polyline_spec(self@, tolerance@, it.cursor_at()));
                    }
                },
                None => {
                    proof {
                        assert(polyline_spec(self@, tolerance@, it.cursor_at())
                            =~= Seq::<RPoint>::empty());
                        assert(polyline_spec(self@, tolerance@, 0)
                            =~= out@.map_values(|p: Point| p@));
                    }
                    return out;
                },
            }
        }
    }

    /// The length of the polyline produced by flattening at `tolerance`:
    /// the sum, over the polyline's chords, of the integer square root
    /// of the squared grid-snapped chord, in units of
    /// `1 / grid_limit()`. Snapping and the rounded-down square root can
    /// each lose up to one grid unit per chord, so the result may
    /// undershoot the exact chord sum by that much; it remains a
    /// nonnegative approximation of the arc length that improves as the
    /// tolerance shrinks.
    pub fn approximate_length(&self, tolerance: &Frac) -> (r: Frac)
        requires
            self.bounded(coord_limit()),
            tolerance.wf(),
            tolerance.bounded(grid_limit()),
            rat_lt(rat_zero(), tolerance@),
        ensures
            r.wf(),
            rat_le(rat_zero(), r@),
            r@.d == 0x10_0000,
            r@.n == plen_spec(self@, tolerance@, 0, snap_spec(self@.from.x),
                snap_spec(self@.from.y)),
    {
        let q: i128 = 0x10_0000;
        let mut it: Flattened = Flattened::new(*self, *tolerance);
        proof {
            let c: int = coord_limit();
            assert(rquad_bounded(self@, c) ==> self.from.bounded(c));
        }
        let mut px: i128 = snap_clamped(&self.from.x);
        let mut py: i128 = snap_clamped(&self.from.y);
        let mut acc: i128 = 0;
        loop
            invariant
                it.wf(),
                it.curve_view() == self@,
                it.tol_view() == tolerance@,
                it.is_done() ==> it.cursor_at() == 0x10_0000,
                0 <= it.cursor_at() <= 0x10_0000,
                -0x1_0000_0000 <= px <= 0x1_0000_0000,
                -0x1_0000_0000 <= py <= 0x1_0000_0000,
                0 <= acc,
                acc <= (it.cursor_at() + 1) * 0x8_0000_0000,
                acc as int + plen_spec(self@, tolerance@, it.cursor_at(), px as int, py as int)
                    == plen_spec(self@, tolerance@, 0, snap_spec(self@.from.x),
                        snap_spec(self@.from.y)),
            decreases 0x10_0000 - it.cursor_at() + (if it.is_done() { 0int } else { 1int }),
        {
            let ghost old_cursor: int = it.cursor_at();
            let ghost px0: int = px as int;
            let ghost py0: int = py as int;
            let p: Option<Point> = it.next();
            match p {
                Some(v) => {
                    let nx: i128 = snap_clamped(&v.x);
                    let ny: i128 = snap_clamped(&v.y);
                    let dx: i128 = nx - px;
                    let dy: i128 = ny - py;
                    proof {
                        assert(in_i128(dx as int * dx as int)
                            && in_i128(dy as int * dy as int)
                            && in_i128(dx as int * dx as int + dy as int * dy as int)
                            && (0 <= dx as int * dx as int + dy as int * dy as int)
                            && (dx as int * dx as int + dy as int * (dy as int) < 0x10_0000_0000_0000_0000int))
                            by (nonlinear_arith)
                            requires
                                -0x2_0000_0000 <= (dx as int) <= 0x2_0000_0000,
                                -0x2_0000_0000 <= (dy as int) <= 0x2_0000_0000,
                        ;
                    }
                    let ln: i128 = isqrt(dx * dx + dy * dy);
                    proof {
                        assert((ln as int) < 0x8_0000_0000) by (nonlinear_arith)
                            requires
                                0 <= ln as int,
                                ln as int * (ln as int)
                                    <= dx as int * dx as int + dy as int * dy as int,
                                dx as int * dx as int + dy as int * (dy as int)
                                    < 0x10_0000_0000_0000_0000int,
                        ;
                        assert((old_cursor + 1) * 0x8_0000_0000 + 0x8_0000_0000
                            == (old_cursor + 2) * 0x8_0000_0000) by (nonlinear_arith);
                        assert((old_cursor + 2) * 0x8_0000_0000
                            <= (it.cursor_at() + 1) * 0x8_0000_0000) by (nonlinear_arith)
                            requires
                                old_cursor + 1 <= it.cursor_at(),
                        ;
                    }
                    proof {
                        assert(plen_spec(self@, tolerance@, old_cursor, px0, py0)
                            == isqrt_spec((nx as int - px0) * (nx as int - px0)
                                + (ny as int - py0) * (ny as int - py0))
                                + plen_spec(self@, tolerance@, it.cursor_at(), nx as int,
                                    ny as int));
                    }
                    acc = acc + ln;
                    px = nx;
                    py = ny;
                },
                None => {
                    proof {
                        crate::rat::lemma_unit_den_facts(
                            Rat { n: acc as int, d: 0x10_0000 });
                    }
                    return Frac { num: acc, den: 0x10_0000 };
                },
            }
        }
    }
}

} // verus!
