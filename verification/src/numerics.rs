//! Epsilon-aware comparison layer over exact rational scalars.
//!
//! Every scalar that the geometry kernel compares is an exact rational
//! `num / den` with a positive denominator.  The comparison layer decides
//! approximate equality and ordering relative to a caller-supplied
//! tolerance `epsilon`, itself a rational: two values are approximately
//! equal when the difference `|a - b|` is at most `epsilon * (|a| + |b|)`.
//! Because the arithmetic is exact, a tolerance below one never blurs a
//! comparison against an exact zero, and `epsilon == 0` gives exact
//! comparison.
use vstd::prelude::*;

verus! {

/// An exact rational scalar `num / den`.  Well-formed values keep `den > 0`;
/// the fraction need not be reduced, and all relations below compare values,
/// not representations.
#[derive(Clone, Copy, Debug)]
pub struct Rat {
    pub num: i64,
    pub den: i64,
}

pub open spec fn abs_int(x: int) -> int {
    if x < 0 {
        -x
    } else {
        x
    }
}

impl Rat {
    /// A well-formed rational has a positive denominator.
    pub open spec fn wf(self) -> bool {
        self.den > 0
    }

    /// Value equality: `a/b == c/d` iff `a*d == c*b` (denominators positive).
    pub open spec fn eq_spec(self, other: Rat) -> bool {
        self.num * other.den == other.num * self.den
    }

    pub open spec fn lt_spec(self, other: Rat) -> bool {
        self.num * other.den < other.num * self.den
    }

    pub open spec fn le_spec(self, other: Rat) -> bool {
        self.num * other.den <= other.num * self.den
    }

    /// Magnitude bound under which the three-factor products of the
    /// approximate comparisons fit in a machine integer.
    pub open spec fn bounded(self) -> bool {
        &&& -0x8000_0000 < self.num < 0x8000_0000
        &&& 0 < self.den < 0x8000_0000
    }

    pub fn new(num: i64, den: i64) -> (r: Rat)
        requires
            den > 0,
        ensures
            r == (Rat { num, den }),
    {
        Rat { num, den }
    }

    /// The rational with the value of the given integer.
    pub fn from_int(v: i64) -> (r: Rat)
        ensures
            r.num == v,
            r.den == 1,
    {
        Rat { num: v, den: 1 }
    }
}

/// `|a - b| <= epsilon * (|a| + |b|)`, written over the integer numerators
/// after clearing the (positive) denominators.
pub open spec fn spec_approx_equal(a: Rat, b: Rat, epsilon: Rat) -> bool {
    abs_int(a.num * b.den - b.num * a.den) * epsilon.den <= epsilon.num * (abs_int(a.num as int) * b.den
        + abs_int(b.num as int) * a.den)
}

pub open spec fn spec_approx_less(a: Rat, b: Rat, epsilon: Rat) -> bool {
    !spec_approx_equal(a, b, epsilon) && a.lt_spec(b)
}

pub open spec fn spec_approx_greater(a: Rat, b: Rat, epsilon: Rat) -> bool {
    !spec_approx_equal(a, b, epsilon) && b.lt_spec(a)
}

pub open spec fn spec_approx_equal_less(a: Rat, b: Rat, epsilon: Rat) -> bool {
    spec_approx_equal(a, b, epsilon) || a.lt_spec(b)
}

pub open spec fn spec_approx_equal_greater(a: Rat, b: Rat, epsilon: Rat) -> bool {
    spec_approx_equal(a, b, epsilon) || b.lt_spec(a)
}

pub(crate) proof fn lemma_mul_range(x: int, y: int, bx: int, by: int)
    by (nonlinear_arith)
    requires
        -bx <= x <= bx,
        -by <= y <= by,
        0 <= bx,
        0 <= by,
    ensures
        -(bx * by) <= x * y <= bx * by,
{
}

pub(crate) proof fn lemma_mul_nonneg(x: int, y: int)
    by (nonlinear_arith)
    requires
        x >= 0,
        y >= 0,
    ensures
        x * y >= 0,
{
}

pub(crate) proof fn lemma_mul_congruence(x: int, y: int, z: int)
    by (nonlinear_arith)
    requires
        x == y,
    ensures
        x * z == y * z,
        z * x == z * y,
{
}

/// Decides whether `a` and `b` are approximately equal within the relative
/// tolerance `epsilon`: exact equality always passes, and otherwise the
/// difference is compared against `epsilon` times the sum of magnitudes.
pub fn approx_equal(a: Rat, b: Rat, epsilon: Rat) -> (r: bool)
    requires
        a.wf(),
        b.wf(),
        epsilon.wf(),
        epsilon.num >= 0,
        a.bounded(),
        b.bounded(),
        epsilon.bounded(),
    ensures
        r == spec_approx_equal(a, b, epsilon),
{
    proof {
        lemma_mul_range(a.num as int, b.den as int, 0x8000_0000, 0x8000_0000);
        lemma_mul_range(b.num as int, a.den as int, 0x8000_0000, 0x8000_0000);
    }
    let ad: i128 = (a.num as i128) * (b.den as i128);
    let bc: i128 = (b.num as i128) * (a.den as i128);
    let diff: i128 = if ad >= bc {
        ad - bc
    } else {
        bc - ad
    };
    let abs_a: i128 = if a.num >= 0 {
        a.num as i128
    } else {
        -(a.num as i128)
    };
    let abs_b: i128 = if b.num >= 0 {
        b.num as i128
    } else {
        -(b.num as i128)
    };
    proof {
        lemma_mul_range(abs_a as int, b.den as int, 0x8000_0000, 0x8000_0000);
        lemma_mul_range(abs_b as int, a.den as int, 0x8000_0000, 0x8000_0000);
    }
    let scale: i128 = abs_a * (b.den as i128) + abs_b * (a.den as i128);
    proof {
        lemma_mul_range(diff as int, epsilon.den as int, 0x10000000000000000, 0x8000_0000);
        lemma_mul_range(epsilon.num as int, scale as int, 0x8000_0000, 0x10000000000000000);
    }
    diff * (epsilon.den as i128) <= (epsilon.num as i128) * scale
}

/// Approximate equality of two integers under the relative tolerance
/// `epsilon`: the comparison of `approx_equal` on the embedded rationals,
/// total over the whole machine range of the operands.
pub fn approx_equal_int(a: i64, b: i64, epsilon: Rat) -> (r: bool)
    requires
        epsilon.wf(),
        epsilon.num >= 0,
        epsilon.bounded(),
    ensures
        r == spec_approx_equal(
            (Rat { num: a, den: 1 as i64 }),
            (Rat { num: b, den: 1 as i64 }),
            epsilon,
        ),
{
    let diff: i128 = if a >= b {
        (a as i128) - (b as i128)
    } else {
        (b as i128) - (a as i128)
    };
    let abs_a: i128 = if a >= 0 {
        a as i128
    } else {
        -(a as i128)
    };
    let abs_b: i128 = if b >= 0 {
        b as i128
    } else {
        -(b as i128)
    };
    proof {
        lemma_mul_range(diff as int, epsilon.den as int, 0x20000000000000000, 0x8000_0000);
        lemma_mul_range(epsilon.num as int, (abs_a + abs_b) as int, 0x8000_0000, 0x20000000000000000);
        let ra = Rat { num: a, den: 1 as i64 };
        let rb = Rat { num: b, den: 1 as i64 };
        assert(ra.num * rb.den - rb.num * ra.den == a - b) by (nonlinear_arith)
            requires
                ra.num == a,
                rb.num == b,
                ra.den == 1,
                rb.den == 1,
        ;
        assert(diff as int == abs_int(a - b));
        lemma_mul_congruence(abs_int(ra.num * rb.den - rb.num * ra.den), diff as int, epsilon.den as int);
        let aa = abs_int(ra.num as int);
        let bb = abs_int(rb.num as int);
        assert(aa * rb.den + bb * ra.den == aa + bb) by (nonlinear_arith)
            requires
                ra.den == 1,
                rb.den == 1,
        ;
        assert(aa + bb == (abs_a + abs_b) as int);
        lemma_mul_congruence(
            abs_int(ra.num as int) * rb.den + abs_int(rb.num as int) * ra.den,
            (abs_a + abs_b) as int,
            epsilon.num as int,
        );
    }
    diff * (epsilon.den as i128) <= (epsilon.num as i128) * (abs_a + abs_b)
}

/// Exact value comparison `a < b`; total on well-formed rationals.
pub fn rat_less(a: Rat, b: Rat) -> (r: bool)
    requires
        a.wf(),
        b.wf(),
    ensures
        r == a.lt_spec(b),
{
    proof {
        lemma_mul_range(a.num as int, b.den as int, 0x8000000000000000, 0x8000000000000000);
        lemma_mul_range(b.num as int, a.den as int, 0x8000000000000000, 0x8000000000000000);
    }
    (a.num as i128) * (b.den as i128) < (b.num as i128) * (a.den as i128)
}

/// Strictly less within tolerance: not approximately equal, and exactly less.
pub fn approx_less(a: Rat, b: Rat, epsilon: Rat) -> (r: bool)
    requires
        a.wf(),
        b.wf(),
        epsilon.wf(),
        epsilon.num >= 0,
        a.bounded(),
        b.bounded(),
        epsilon.bounded(),
    ensures
        r == spec_approx_less(a, b, epsilon),
{
    if approx_equal(a, b, epsilon) {
        return false;
    }
    rat_less(a, b)
}

/// Less than or approximately equal.
pub fn approx_equal_less(a: Rat, b: Rat, epsilon: Rat) -> (r: bool)
    requires
        a.wf(),
        b.wf(),
        epsilon.wf(),
        epsilon.num >= 0,
        a.bounded(),
        b.bounded(),
        epsilon.bounded(),
    ensures
        r == spec_approx_equal_less(a, b, epsilon),
{
    if approx_equal(a, b, epsilon) {
        return true;
    }
    rat_less(a, b)
}

/// Strictly greater within tolerance: not approximately equal, and exactly greater.
pub fn approx_greater(a: Rat, b: Rat, epsilon: Rat) -> (r: bool)
    requires
        a.wf(),
        b.wf(),
        epsilon.wf(),
        epsilon.num >= 0,
        a.bounded(),
        b.bounded(),
        epsilon.bounded(),
    ensures
        r == spec_approx_greater(a, b, epsilon),
{
    if approx_equal(a, b, epsilon) {
        return false;
    }
    rat_less(b, a)
}

/// Greater than or approximately equal.
pub fn approx_equal_greater(a: Rat, b: Rat, epsilon: Rat) -> (r: bool)
    requires
        a.wf(),
        b.wf(),
        epsilon.wf(),
        epsilon.num >= 0,
        a.bounded(),
        b.bounded(),
        epsilon.bounded(),
    ensures
        r == spec_approx_equal_greater(a, b, epsilon),
{
    if approx_equal(a, b, epsilon) {
        return true;
    }
    rat_less(b, a)
}

/// A value is approximately equal to itself under every non-negative
/// tolerance.
pub proof fn lemma_approx_equal_reflexive(a: Rat, epsilon: Rat)
    requires
        a.wf(),
        epsilon.wf(),
        epsilon.num >= 0,
    ensures
        spec_approx_equal(a, a, epsilon),
{
    assert(a.num * a.den - a.num * a.den == 0);
    lemma_mul_range(abs_int(a.num * a.den - a.num * a.den), epsilon.den as int, 0, 0x8000000000000000);
    lemma_mul_nonneg(abs_int(a.num as int), a.den as int);
    lemma_mul_nonneg(
        epsilon.num as int,
        abs_int(a.num as int) * a.den + abs_int(a.num as int) * a.den,
    );
}

/// Boundary monotonicity: for exactly ordered values `a < b`, the relative
/// gap `(b - a) / (|a| + |b|)` splits the tolerances.  A tolerance below the
/// gap leaves the values approximately unequal (so `a` is approximately
/// less), and a tolerance at or above the gap makes them approximately
/// equal.  The gap is compared as the fraction `gap_num / gap_den` below.
pub proof fn lemma_approx_boundary(a: Rat, b: Rat, epsilon: Rat)
    requires
        a.wf(),
        b.wf(),
        epsilon.wf(),
        epsilon.num >= 0,
        a.lt_spec(b),
    ensures
        ({
            let gap_num = b.num * a.den - a.num * b.den;
            let gap_den = abs_int(a.num as int) * b.den + abs_int(b.num as int) * a.den;
            &&& (epsilon.num * gap_den < gap_num * epsilon.den <==> spec_approx_less(
                a,
                b,
                epsilon,
            ))
            &&& (gap_num * epsilon.den <= epsilon.num * gap_den <==> spec_approx_equal(
                a,
                b,
                epsilon,
            ))
        }),
{
    let gap_num = b.num * a.den - a.num * b.den;
    assert(gap_num > 0);
    assert(abs_int(a.num * b.den - b.num * a.den) == gap_num);
    lemma_mul_congruence(abs_int(a.num * b.den - b.num * a.den), gap_num, epsilon.den as int);
}

} // verus!
