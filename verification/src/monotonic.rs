//! The monotonic wrapper: a segment asserted by its creator to be
//! monotonic in x and y over [0, 1], which makes coordinate-to-parameter
//! inversion meaningful.

use vstd::prelude::*;
use crate::rat::{Frac, Rat, rat_le, rat_eq, lemma_abs_mul, lemma_rat_le_total,
    lemma_rat_le_congruence};
use crate::quadratic_bezier::{
    QuadraticBezierSegment, RQuad, eval1, coord_limit, grid_limit, eval_grid_limit,
    lemma_sample_endpoints,
};

verus! {

/// A quadratic Bézier segment wrapped by `assume_monotonic`. The wrapper
/// adds no data; it marks that the caller vouches for monotonicity, and
/// only such segments offer inversion.
#[derive(Clone, Copy, Debug)]
pub struct MonotonicQuadraticBezierSegment {
    segment: QuadraticBezierSegment,
}

impl View for MonotonicQuadraticBezierSegment {
    type V = RQuad;

    closed spec fn view(&self) -> RQuad {
        self.segment@
    }
}

impl MonotonicQuadraticBezierSegment {
    /// Construction is reserved to `assume_monotonic`.
    pub(crate) fn new_unchecked(segment: QuadraticBezierSegment) -> (r:
        MonotonicQuadraticBezierSegment)
        ensures
            r@ == segment@,
    {
        MonotonicQuadraticBezierSegment { segment }
    }

    /// The wrapped segment.
    pub fn segment(&self) -> (r: QuadraticBezierSegment)
        ensures
            r@ == self@,
    {
        self.segment
    }

    /// Finds by bisection a parameter on the subdivision grid whose x
    /// value does not exceed `x`, while the next grid point's x value is
    /// at least `x`. The requires assume a curve whose x coordinate is
    /// nondecreasing over [0, 1] (`from.x <= x <= to.x` brackets the
    /// query); for a nonincreasing curve, flip the segment first. Under
    /// that assumption the result brackets the preimage of `x` within
    /// one grid cell of width `1 / grid_limit()`.
    pub fn solve_t_for_x(&self, x: &Frac) -> (r: Frac)
        requires
            crate::quadratic_bezier::rquad_bounded(self@, coord_limit()),
            x.wf(),
            x.bounded(0x4000_0000_0000),
            rat_le(self@.from.x, x@),
            rat_le(x@, self@.to.x),
        ensures
            r.wf(),
            r@.d == grid_limit(),
            0 <= r@.n < grid_limit(),
            rat_le(eval1(self@.from.x, self@.ctrl.x, self@.to.x, r@), x@),
            rat_le(x@, eval1(self@.from.x, self@.ctrl.x, self@.to.x,
                Rat { n: r@.n + 1, d: grid_limit() })),
    {
        let g: i128 = 0x10_0000;
        let mut lo: i128 = 0;
        let mut hi: i128 = g;
        proof {
            let t0 = Rat { n: 0, d: grid_limit() };
            let t1 = Rat { n: grid_limit(), d: grid_limit() };
            lemma_sample_endpoints(self@.from.x, self@.ctrl.x, self@.to.x, t0);
            lemma_sample_endpoints(self@.from.x, self@.ctrl.x, self@.to.x, t1);
            lemma_rat_le_congruence(eval1(self@.from.x, self@.ctrl.x, self@.to.x, t0), x@,
                self@.from.x, x@);
            lemma_rat_le_congruence(x@, eval1(self@.from.x, self@.ctrl.x, self@.to.x, t1),
                x@, self@.to.x);
        }
        while hi - lo > 1
            invariant
                0 <= lo < hi <= 0x10_0000,
                g == 0x10_0000,
                x.wf(),
                x.bounded(0x4000_0000_0000),
                crate::quadratic_bezier::rquad_bounded(self@, coord_limit()),
                rat_le(eval1(self@.from.x, self@.ctrl.x, self@.to.x,
                    Rat { n: lo as int, d: grid_limit() }), x@),
                rat_le(x@, eval1(self@.from.x, self@.ctrl.x, self@.to.x,
                    Rat { n: hi as int, d: grid_limit() })),
            decreases hi - lo,
        {
            let mid: i128 = lo + (hi - lo) / 2;
            let t = Frac { num: mid, den: g };
            let xm: Frac = self.segment.x(&t);
            proof {
                lemma_abs_mul(xm@.n, x@.d, eval_grid_limit(), 0x4000_0000_0000);
                lemma_abs_mul(x@.n, xm@.d, 0x4000_0000_0000, eval_grid_limit());
                lemma_rat_le_total(xm@, x@);
            }
            if xm.le(x) {
                lo = mid;
            } else {
                hi = mid;
            }
        }
        Frac { num: lo, den: g }
    }
}

} // verus!
