//! An exact rational scalar.
//!
//! The curve operations of this crate are defined over `Frac`, a rational
//! number held as an `i128` numerator and a positive `i128` denominator.
//! Its mathematical value lives at the specification level as a `Rat`,
//! a pair of unbounded integers, and every executable operation states
//! the exact `Rat` it produces. Nothing is rounded: the contracts speak
//! of true rational arithmetic.

use vstd::prelude::*;

verus! {

/// The specification-level value of a rational scalar: the number `n / d`.
/// Well-formed values keep `d > 0`.
pub ghost struct Rat {
    pub n: int,
    pub d: int,
}

pub open spec fn rat_wf(a: Rat) -> bool {
    a.d > 0
}

/// `a` and `b` denote the same rational number (denominators positive).
pub open spec fn rat_eq(a: Rat, b: Rat) -> bool {
    a.n * b.d == b.n * a.d
}

/// `a <= b` as rational numbers (denominators positive).
pub open spec fn rat_le(a: Rat, b: Rat) -> bool {
    a.n * b.d <= b.n * a.d
}

/// `a < b` as rational numbers (denominators positive).
pub open spec fn rat_lt(a: Rat, b: Rat) -> bool {
    a.n * b.d < b.n * a.d
}

pub open spec fn rat_of_int(n: int) -> Rat {
    Rat { n, d: 1 }
}

pub open spec fn rat_zero() -> Rat {
    rat_of_int(0)
}

pub open spec fn rat_one() -> Rat {
    rat_of_int(1)
}

pub open spec fn rat_add(a: Rat, b: Rat) -> Rat {
    Rat { n: a.n * b.d + b.n * a.d, d: a.d * b.d }
}

pub open spec fn rat_sub(a: Rat, b: Rat) -> Rat {
    Rat { n: a.n * b.d - b.n * a.d, d: a.d * b.d }
}

pub open spec fn rat_mul(a: Rat, b: Rat) -> Rat {
    Rat { n: a.n * b.n, d: a.d * b.d }
}

pub open spec fn rat_neg(a: Rat) -> Rat {
    Rat { n: -a.n, d: a.d }
}

/// Division, with the sign moved into the numerator so that a
/// well-formed divisor with nonzero numerator gives a well-formed result.
pub open spec fn rat_div(a: Rat, b: Rat) -> Rat {
    if b.n >= 0 {
        Rat { n: a.n * b.d, d: a.d * b.n }
    } else {
        Rat { n: -(a.n * b.d), d: -(a.d * b.n) }
    }
}

/// Both components of `a` are at most `b` in magnitude (and the
/// denominator is positive). This is the machine-size side condition
/// that keeps the exact `i128` arithmetic below free of overflow.
pub open spec fn rat_bounded(a: Rat, b: int) -> bool {
    -b <= a.n <= b && 0 < a.d <= b
}

/// `x` fits in an `i128`.
pub open spec fn in_i128(x: int) -> bool {
    i128::MIN <= x <= i128::MAX
}

/// An exact rational scalar: the number `num / den`, with `den > 0`.
#[derive(Clone, Copy, Debug)]
pub struct Frac {
    pub num: i128,
    pub den: i128,
}

impl View for Frac {
    type V = Rat;

    open spec fn view(&self) -> Rat {
        Rat { n: self.num as int, d: self.den as int }
    }
}

impl Frac {
    pub open spec fn wf(&self) -> bool {
        rat_wf(self@)
    }

    pub open spec fn bounded(&self, b: int) -> bool {
        rat_bounded(self@, b)
    }

    /// The rational `num / den`; the sign is moved to the numerator.
    pub fn new(num: i64, den: i64) -> (r: Frac)
        requires
            den != 0,
        ensures
            r.wf(),
            den > 0 ==> r@ == (Rat { n: num as int, d: den as int }),
            den < 0 ==> r@ == (Rat { n: -(num as int), d: -(den as int) }),
            r.bounded(0x8000_0000_0000_0000),
    {
        if den > 0 {
            Frac { num: num as i128, den: den as i128 }
        } else {
            Frac { num: -(num as i128), den: -(den as i128) }
        }
    }

    pub fn from_int(num: i64) -> (r: Frac)
        ensures
            r.wf(),
            r@ == rat_of_int(num as int),
            r.bounded(0x8000_0000_0000_0000),
    {
        Frac { num: num as i128, den: 1 }
    }

    pub fn zero() -> (r: Frac)
        ensures
            r.wf(),
            r@ == rat_zero(),
            r.bounded(1),
    {
        Frac { num: 0, den: 1 }
    }

    pub fn one() -> (r: Frac)
        ensures
            r.wf(),
            r@ == rat_one(),
            r.bounded(1),
    {
        Frac { num: 1, den: 1 }
    }

    pub fn add(&self, other: &Frac) -> (r: Frac)
        requires
            self.wf(),
            other.wf(),
            in_i128(self@.n * other@.d),
            in_i128(other@.n * self@.d),
            in_i128(rat_add(self@, other@).n),
            in_i128(rat_add(self@, other@).d),
        ensures
            r@ == rat_add(self@, other@),
            r.wf(),
    {
        proof {
            lemma_pos_mul(self@.d, other@.d);
        }
        Frac { num: self.num * other.den + other.num * self.den, den: self.den * other.den }
    }

    pub fn sub(&self, other: &Frac) -> (r: Frac)
        requires
            self.wf(),
            other.wf(),
            in_i128(self@.n * other@.d),
            in_i128(other@.n * self@.d),
            in_i128(rat_sub(self@, other@).n),
            in_i128(rat_sub(self@, other@).d),
        ensures
            r@ == rat_sub(self@, other@),
            r.wf(),
    {
        proof {
            lemma_pos_mul(self@.d, other@.d);
        }
        Frac { num: self.num * other.den - other.num * self.den, den: self.den * other.den }
    }

    pub fn mul(&self, other: &Frac) -> (r: Frac)
        requires
            self.wf(),
            other.wf(),
            in_i128(rat_mul(self@, other@).n),
            in_i128(rat_mul(self@, other@).d),
        ensures
            r@ == rat_mul(self@, other@),
            r.wf(),
    {
        proof {
            lemma_pos_mul(self@.d, other@.d);
        }
        Frac { num: self.num * other.num, den: self.den * other.den }
    }

    pub fn neg(&self) -> (r: Frac)
        requires
            self.wf(),
            in_i128(-self@.n),
        ensures
            r@ == rat_neg(self@),
            r.wf(),
    {
        Frac { num: -self.num, den: self.den }
    }

    pub fn div(&self, other: &Frac) -> (r: Frac)
        requires
            self.wf(),
            other.wf(),
            other@.n != 0,
            in_i128(self@.n * other@.d),
            in_i128(-(self@.n * other@.d)),
            in_i128(self@.d * other@.n),
            in_i128(-(self@.d * other@.n)),
        ensures
            r@ == rat_div(self@, other@),
            r.wf(),
    {
        if other.num >= 0 {
            proof {
                lemma_pos_mul(self@.d, other@.n);
            }
            Frac { num: self.num * other.den, den: self.den * other.num }
        } else {
            proof {
                assert(self@.d * other@.n < 0) by (nonlinear_arith)
                    requires
                        self@.d > 0,
                        other@.n < 0,
                ;
            }
            Frac { num: -(self.num * other.den), den: -(self.den * other.num) }
        }
    }

    /// Exact equality of the two rational values.
    pub fn equals(&self, other: &Frac) -> (r: bool)
        requires
            self.wf(),
            other.wf(),
            in_i128(self@.n * other@.d),
            in_i128(other@.n * self@.d),
        ensures
            r == rat_eq(self@, other@),
    {
        self.num * other.den == other.num * self.den
    }

    /// Exact `<=` on the two rational values.
    pub fn le(&self, other: &Frac) -> (r: bool)
        requires
            self.wf(),
            other.wf(),
            in_i128(self@.n * other@.d),
            in_i128(other@.n * self@.d),
        ensures
            r == rat_le(self@, other@),
    {
        self.num * other.den <= other.num * self.den
    }

    /// Exact `<` on the two rational values.
    pub fn lt(&self, other: &Frac) -> (r: bool)
        requires
            self.wf(),
            other.wf(),
            in_i128(self@.n * other@.d),
            in_i128(other@.n * self@.d),
        ensures
            r == rat_lt(self@, other@),
    {
        self.num * other.den < other.num * self.den
    }

    /// Whether the value is exactly zero.
    pub fn is_zero(&self) -> (r: bool)
        requires
            self.wf(),
        ensures
            r == (self@.n == 0),
            r == rat_eq(self@, rat_zero()),
    {
        proof {
            assert(0 * self@.d == 0) by (nonlinear_arith);
            assert(self@.n * 1 == self@.n) by (nonlinear_arith);
        }
        self.num == 0
    }
}

/// Sign and unit comparisons of a well-formed rational, spelled out for
/// the zero and one constants.
pub proof fn lemma_unit_den_facts(a: Rat)
    by (nonlinear_arith)
    requires
        rat_wf(a),
    ensures
        rat_lt(rat_zero(), a) <==> a.n > 0,
        rat_le(rat_zero(), a) <==> a.n >= 0,
        rat_le(a, rat_one()) <==> a.n <= a.d,
        rat_lt(a, rat_one()) <==> a.n < a.d,
{
}

/// The product of two positive integers is positive.
pub proof fn lemma_pos_mul(x: int, y: int)
    by (nonlinear_arith)
    requires
        x > 0,
        y > 0,
    ensures
        x * y > 0,
{
}

/// Multiplying two numbers bounded in magnitude bounds the product.
pub proof fn lemma_abs_mul(x: int, y: int, bx: int, by: int)
    by (nonlinear_arith)
    requires
        -bx <= x <= bx,
        -by <= y <= by,
        0 <= bx,
        0 <= by,
    ensures
        -(bx * by) <= x * y <= bx * by,
        (x > 0 && y > 0) ==> x * y > 0,
{
}

/// `rat_le` in both directions is `rat_eq`, and the three relations
/// order any two well-formed values.
pub proof fn lemma_rat_le_total(a: Rat, b: Rat)
    requires
        rat_wf(a),
        rat_wf(b),
    ensures
        rat_le(a, b) || rat_le(b, a),
        rat_eq(a, b) <==> (rat_le(a, b) && rat_le(b, a)),
        rat_lt(a, b) <==> (rat_le(a, b) && !rat_eq(a, b)),
{
}

/// Transitivity of `rat_eq` over well-formed values.
pub proof fn lemma_rat_eq_trans(a: Rat, b: Rat, c: Rat)
    by (nonlinear_arith)
    requires
        rat_wf(a),
        rat_wf(b),
        rat_wf(c),
        rat_eq(a, b),
        rat_eq(b, c),
    ensures
        rat_eq(a, c),
{
}

/// Transitivity of `rat_le` over well-formed values.
pub proof fn lemma_rat_le_trans(a: Rat, b: Rat, c: Rat)
    by (nonlinear_arith)
    requires
        rat_wf(a),
        rat_wf(b),
        rat_wf(c),
        rat_le(a, b),
        rat_le(b, c),
    ensures
        rat_le(a, c),
{
}

/// Replacing either side of `rat_le` by an equal value keeps the relation.
pub proof fn lemma_rat_le_congruence(a: Rat, b: Rat, a2: Rat, b2: Rat)
    by (nonlinear_arith)
    requires
        rat_wf(a),
        rat_wf(b),
        rat_wf(a2),
        rat_wf(b2),
        rat_eq(a, a2),
        rat_eq(b, b2),
    ensures
        rat_le(a, b) == rat_le(a2, b2),
{
}

} // verus!
