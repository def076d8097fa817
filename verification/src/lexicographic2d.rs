//! Lexicographic (y first, then x) ordering of points, the normalized
//! segments ordered by it, and the order's transitivity facts.  The sweep
//! algorithm processes events in this order.
use crate::line2d::Line2D;
use crate::point2d::{Point2d, RatPoint2d};
use vstd::prelude::*;

verus! {

/// Grid-point order: by `y` ascending, ties by `x` ascending.
pub open spec fn pt_lex_lt(a: Point2d, b: Point2d) -> bool {
    a.y < b.y || (a.y == b.y && a.x < b.x)
}

pub open spec fn pt_lex_le(a: Point2d, b: Point2d) -> bool {
    pt_lex_lt(a, b) || a == b
}

/// Hull order on grid points: by `x` ascending, ties by `y` ascending.
pub open spec fn pt_xy_lt(a: Point2d, b: Point2d) -> bool {
    a.x < b.x || (a.x == b.x && a.y < b.y)
}

pub open spec fn pt_xy_le(a: Point2d, b: Point2d) -> bool {
    pt_xy_lt(a, b) || a == b
}

/// The sequence is ascending in the hull order.
pub open spec fn sorted_xy(s: Seq<Point2d>) -> bool {
    forall|i: int, j: int| 0 <= i < j < s.len() ==> pt_xy_le(#[trigger] s[i], #[trigger] s[j])
}

/// Compares two grid points in the hull order.
pub fn pt_xy_less(a: &Point2d, b: &Point2d) -> (r: bool)
    ensures
        r == pt_xy_lt(*a, *b),
{
    a.x < b.x || (a.x == b.x && a.y < b.y)
}

/// Rational-point order: by `y` ascending, ties by `x` ascending, compared
/// as exact fractions.
pub open spec fn rp_lex_lt(p: RatPoint2d, q: RatPoint2d) -> bool {
    p.yn * q.den < q.yn * p.den || (p.yn * q.den == q.yn * p.den && p.xn * q.den < q.xn * p.den)
}

pub open spec fn rp_lex_le(p: RatPoint2d, q: RatPoint2d) -> bool {
    rp_lex_lt(p, q) || p.eq_spec(q)
}

/// Compares two rational points in the lexicographic order.
pub fn rp_lex_less(p: &RatPoint2d, q: &RatPoint2d) -> (r: bool)
    requires
        p.wf(),
        q.wf(),
    ensures
        r == rp_lex_lt(*p, *q),
{
    proof {
        crate::numerics::lemma_mul_range(
            p.yn as int,
            q.den as int,
            0x8000000000000000,
            0x8000000000000000,
        );
        crate::numerics::lemma_mul_range(
            q.yn as int,
            p.den as int,
            0x8000000000000000,
            0x8000000000000000,
        );
        crate::numerics::lemma_mul_range(
            p.xn as int,
            q.den as int,
            0x8000000000000000,
            0x8000000000000000,
        );
        crate::numerics::lemma_mul_range(
            q.xn as int,
            p.den as int,
            0x8000000000000000,
            0x8000000000000000,
        );
    }
    let pyq: i128 = (p.yn as i128) * (q.den as i128);
    let qyp: i128 = (q.yn as i128) * (p.den as i128);
    if pyq < qyp {
        true
    } else if pyq == qyp {
        (p.xn as i128) * (q.den as i128) < (q.xn as i128) * (p.den as i128)
    } else {
        false
    }
}

/// Fraction transitivity: `a/ad < b/bd` and `b/bd < c/cd` give
/// `a/ad < c/cd`, with positive denominators.
pub(crate) proof fn lemma_frac_lt_trans(
    an: int,
    ad: int,
    bn: int,
    bd: int,
    cn: int,
    cd: int,
)
    by (nonlinear_arith)
    requires
        ad > 0,
        bd > 0,
        cd > 0,
        an * bd < bn * ad,
        bn * cd < cn * bd,
    ensures
        an * cd < cn * ad,
{
}

/// Fraction transitivity with an equality on one side.
pub(crate) proof fn lemma_frac_eq_lt_trans(
    an: int,
    ad: int,
    bn: int,
    bd: int,
    cn: int,
    cd: int,
)
    by (nonlinear_arith)
    requires
        ad > 0,
        bd > 0,
        cd > 0,
        an * bd == bn * ad,
        bn * cd < cn * bd,
    ensures
        an * cd < cn * ad,
{
}

/// Fraction transitivity with the equality on the other side.
pub(crate) proof fn lemma_frac_lt_eq_trans(
    an: int,
    ad: int,
    bn: int,
    bd: int,
    cn: int,
    cd: int,
)
    by (nonlinear_arith)
    requires
        ad > 0,
        bd > 0,
        cd > 0,
        an * bd < bn * ad,
        bn * cd == cn * bd,
    ensures
        an * cd < cn * ad,
{
}

/// Equality of fractions is transitive, with positive denominators.
pub(crate) proof fn lemma_frac_eq_trans(an: int, ad: int, bn: int, bd: int, cn: int, cd: int)
    by (nonlinear_arith)
    requires
        ad > 0,
        bd > 0,
        cd > 0,
        an * bd == bn * ad,
        bn * cd == cn * bd,
    ensures
        an * cd == cn * ad,
{
}

/// The lexicographic order on rational points is transitive.
pub proof fn lemma_rp_lex_trans(p: RatPoint2d, q: RatPoint2d, r: RatPoint2d)
    requires
        p.wf(),
        q.wf(),
        r.wf(),
        rp_lex_lt(p, q),
        rp_lex_lt(q, r),
    ensures
        rp_lex_lt(p, r),
{
    if p.yn * q.den < q.yn * p.den {
        if q.yn * r.den < r.yn * q.den {
            lemma_frac_lt_trans(p.yn as int, p.den as int, q.yn as int, q.den as int, r.yn as int, r.den as int);
        } else {
            lemma_frac_lt_eq_trans(p.yn as int, p.den as int, q.yn as int, q.den as int, r.yn as int, r.den as int);
        }
    } else {
        if q.yn * r.den < r.yn * q.den {
            lemma_frac_eq_lt_trans(p.yn as int, p.den as int, q.yn as int, q.den as int, r.yn as int, r.den as int);
        } else {
            lemma_frac_eq_trans(p.yn as int, p.den as int, q.yn as int, q.den as int, r.yn as int, r.den as int);
            if p.xn * q.den < q.xn * p.den {
                lemma_frac_lt_trans(p.xn as int, p.den as int, q.xn as int, q.den as int, r.xn as int, r.den as int);
            } else {
                lemma_frac_eq_lt_trans(p.xn as int, p.den as int, q.xn as int, q.den as int, r.xn as int, r.den as int);
            }
        }
    }
}

/// A value-equal point stands strictly below whatever the original does.
pub proof fn lemma_rp_lex_eq_lt(a: RatPoint2d, b: RatPoint2d, c: RatPoint2d)
    requires
        a.wf(),
        b.wf(),
        c.wf(),
        a.eq_spec(b),
        rp_lex_lt(b, c),
    ensures
        rp_lex_lt(a, c),
{
    if b.yn * c.den < c.yn * b.den {
        lemma_frac_eq_lt_trans(a.yn as int, a.den as int, b.yn as int, b.den as int, c.yn as int, c.den as int);
    } else {
        lemma_frac_eq_trans(a.yn as int, a.den as int, b.yn as int, b.den as int, c.yn as int, c.den as int);
        lemma_frac_eq_lt_trans(a.xn as int, a.den as int, b.xn as int, b.den as int, c.xn as int, c.den as int);
    }
}

/// Weak-then-strict composition of the lexicographic order.
pub proof fn lemma_rp_lex_le_lt(a: RatPoint2d, b: RatPoint2d, c: RatPoint2d)
    requires
        a.wf(),
        b.wf(),
        c.wf(),
        rp_lex_le(a, b),
        rp_lex_lt(b, c),
    ensures
        rp_lex_lt(a, c),
{
    if rp_lex_lt(a, b) {
        lemma_rp_lex_trans(a, b, c);
    } else {
        lemma_rp_lex_eq_lt(a, b, c);
    }
}

/// A strictly smaller rational point is neither equal nor strictly larger.
pub proof fn lemma_rp_lex_asym(p: RatPoint2d, q: RatPoint2d)
    requires
        p.wf(),
        q.wf(),
        rp_lex_lt(p, q),
    ensures
        !rp_lex_lt(q, p),
        !p.eq_spec(q),
        !q.eq_spec(p),
{
}

/// Two rational points are ordered or equal in value.
pub proof fn lemma_rp_lex_total(p: RatPoint2d, q: RatPoint2d)
    requires
        p.wf(),
        q.wf(),
    ensures
        rp_lex_lt(p, q) || rp_lex_lt(q, p) || (p.eq_spec(q) && q.eq_spec(p)),
{
}

/// A point value ordered for the sweep: by `y`, ties by `x`.
#[derive(Clone, Copy, Debug, PartialEq, Eq, Structural)]
pub struct LexicographicPoint2d(pub Point2d);

impl LexicographicPoint2d {
    pub fn new(x: i64, y: i64) -> (r: LexicographicPoint2d)
        ensures
            r.0 == (Point2d { x, y }),
    {
        LexicographicPoint2d(Point2d { x, y })
    }

    /// Strict comparison in the (y, x) order.
    pub fn less(&self, other: &LexicographicPoint2d) -> (r: bool)
        ensures
            r == pt_lex_lt(self.0, other.0),
    {
        self.0.y < other.0.y || (self.0.y == other.0.y && self.0.x < other.0.x)
    }
}

/// A segment normalized so that its lexicographically smaller endpoint is
/// `start`: the sweep meets `start` (the upper endpoint) first.
#[derive(Clone, Copy, Debug, PartialEq, Eq, Structural)]
pub struct LexicographicLine2d(pub Line2D);

impl LexicographicLine2d {
    /// Normalizes a segment so that `start <= end` in the (y, x) order.
    pub fn new_normalized(line: Line2D) -> (r: LexicographicLine2d)
        ensures
            r.0 == line || r.0 == line.reverse_spec(),
            pt_lex_le(r.0.start, r.0.end),
            r.0 == (if pt_lex_lt(line.start, line.end) {
                line
            } else {
                line.reverse_spec()
            }),
    {
        let s = LexicographicPoint2d(line.start);
        let e = LexicographicPoint2d(line.end);
        if s.less(&e) {
            LexicographicLine2d(line)
        } else {
            LexicographicLine2d(line.reverse())
        }
    }

    /// The segment running from its upper endpoint to its lower endpoint.
    pub fn upper_lower(upper: LexicographicPoint2d, lower: LexicographicPoint2d) -> (r:
        LexicographicLine2d)
        ensures
            r.0.start == upper.0,
            r.0.end == lower.0,
    {
        LexicographicLine2d(Line2D { start: upper.0, end: lower.0 })
    }

    pub fn line(&self) -> (r: Line2D)
        ensures
            r == self.0,
    {
        self.0
    }

    pub fn start(&self) -> (r: LexicographicPoint2d)
        ensures
            r.0 == self.0.start,
    {
        LexicographicPoint2d(self.0.start)
    }

    pub fn end(&self) -> (r: LexicographicPoint2d)
        ensures
            r.0 == self.0.end,
    {
        LexicographicPoint2d(self.0.end)
    }
}

} // verus!
