//! Planar Bezier segments over fixed-point coordinates.
//!
//! Coordinates are signed 20-bit fixed-point values (`FX_ONE` is one unit),
//! so every evaluation is exact integer arithmetic. Distances are found by
//! bracketed search: candidate curve parameters — the segment ends and the
//! bracketed roots of the distance derivative — are collected, and the
//! least Euclidean distance over the candidates is returned, rounded down
//! to the fixed-point grid.

use vstd::prelude::*;
use vstd::arithmetic::div_mod::lemma_div_is_ordered;
use vstd::arithmetic::div_mod::lemma_div_of0;
use vstd::arithmetic::div_mod::lemma_div_pos_is_pos;
use vstd::arithmetic::mul::lemma_mul_inequality;
use vstd::arithmetic::div_mod::lemma_div_multiples_vanish;
use vstd::arithmetic::div_mod::lemma_fundamental_div_mod;

verus! {

/// One coordinate unit: the fixed-point scale, 2^20.
pub const FX_ONE: i64 = 0x10_0000;

/// The largest coordinate magnitude the arithmetic admits without overflow.
pub const FX_LIMIT: i64 = 0x4000_0000_0000;

/// `r` is the square root of `x`, rounded down.
pub open spec fn is_sqrt(r: int, x: int) -> bool {
    &&& 0 <= r
    &&& r * r <= x
    &&& x < (r + 1) * (r + 1)
}

/// Fixed-point linear interpolation of scalars, rounded toward minus
/// infinity: `a + (b - a) * t / FX_ONE`.
pub open spec fn sp_fx_lerp(a: int, b: int, t: int) -> int {
    a + ((b - a) * t) / (FX_ONE as int)
}

/// Linear interpolation of coordinate pairs.
pub open spec fn sp_lerp(a: (int, int), b: (int, int), t: int) -> (int, int) {
    (sp_fx_lerp(a.0, b.0, t), sp_fx_lerp(a.1, b.1, t))
}

/// The squared Euclidean distance of two coordinate pairs.
pub open spec fn sp_dist2(a: (int, int), b: (int, int)) -> int {
    (a.0 - b.0) * (a.0 - b.0) + (a.1 - b.1) * (a.1 - b.1)
}

/// The raw dot product of two coordinate pairs (scale `FX_ONE` squared).
pub open spec fn sp_dot(a: (int, int), b: (int, int)) -> int {
    a.0 * b.0 + a.1 * b.1
}

/// The square root of `x`, rounded down.
fn isqrt(x: u128) -> (r: u64)
    requires
        x < 0x1_0000_0000_0000_0000_0000_0000,
    ensures
        is_sqrt(r as int, x as int),
        r <= 0x1_0000_0000_0000,
{
    let mut lo: u128 = 0;
    let mut hi: u128 = 0x1_0000_0000_0001;
    proof {
        assert(0x1_0000_0000_0001 * 0x1_0000_0000_0001 > x) by (nonlinear_arith)
            requires
                x < 0x1_0000_0000_0000_0000_0000_0000,
        ;
    }
    while hi - lo > 1
        invariant
            lo < hi <= 0x1_0000_0000_0001,
            lo * lo <= x,
            x < hi * hi,
        decreases hi - lo,
    {
        let mid = lo + (hi - lo) / 2;
        proof {
            assert(mid * mid < 0x1_0000_0000_0000_0000_0000_0000_0000) by (nonlinear_arith)
                requires
                    0 <= mid <= 0x1_0000_0000_0001,
            ;
        }
        if mid * mid <= x {
            lo = mid;
        } else {
            hi = mid;
        }
    }
    lo as u64
}

/// Fixed-point linear interpolation of scalars; the result stays between
/// the two ends.
fn fx_lerp(a: i64, b: i64, t: i64) -> (r: i64)
    requires
        -FX_LIMIT <= a <= FX_LIMIT,
        -FX_LIMIT <= b <= FX_LIMIT,
        0 <= t <= FX_ONE,
    ensures
        r as int == sp_fx_lerp(a as int, b as int, t as int),
        a <= b ==> a <= r <= b,
        b <= a ==> b <= r <= a,
{
    let diff: i64 = b - a;
    proof {
        assert(-0x10_0000_0000_0000_0000 <= diff as int * t as int <= 0x10_0000_0000_0000_0000)
            by (nonlinear_arith)
            requires
                -0x8000_0000_0000 <= diff as int <= 0x8000_0000_0000,
                0 <= t as int <= 0x10_0000,
        ;
    }
    let prod: i128 = (diff as i128) * (t as i128);
    let q: i128 = match prod.checked_div_euclid(FX_ONE as i128) {
        Some(q) => q,
        None => 0,  // unreachable: the divisor is a positive constant
    };
    proof {
        lemma_fx_scale_bounds(diff as int, t as int);
    }
    a + (q as i64)
}

/// `diff * t / FX_ONE` lies between `0` and `diff` for `t` in `[0, FX_ONE]`.
proof fn lemma_fx_scale_bounds(diff: int, t: int)
    requires
        0 <= t <= FX_ONE,
    ensures
        diff >= 0 ==> 0 <= (diff * t) / (FX_ONE as int) <= diff,
        diff <= 0 ==> diff <= (diff * t) / (FX_ONE as int) <= 0,
{
    let one = FX_ONE as int;
    if diff >= 0 {
        assert(0 <= diff * t <= diff * one) by (nonlinear_arith)
            requires
                0 <= t <= one,
                diff >= 0,
        ;
        lemma_div_is_ordered(0, diff * t, one);
        lemma_div_is_ordered(diff * t, diff * one, one);
        lemma_div_multiples_vanish(diff, one);
    } else {
        assert(diff * one <= diff * t <= 0) by (nonlinear_arith)
            requires
                0 <= t <= one,
                diff <= 0,
        ;
        lemma_div_is_ordered(diff * t, 0, one);
        lemma_div_is_ordered(diff * one, diff * t, one);
        lemma_div_multiples_vanish(diff, one);
    }
}

/// A 2D point or vector in fixed-point coordinates.
#[derive(Clone, Copy, Debug, PartialEq, Eq, Structural)]
pub struct Vec2 {
    pub x: i64,
    pub y: i64,
}

/// The coordinate pair of a point, as the specifications speak of it.
pub open spec fn pt(v: Vec2) -> (int, int) {
    (v.x as int, v.y as int)
}

/// The point of an in-range coordinate pair.
pub open spec fn vec2_of(p: (int, int)) -> Vec2 {
    Vec2 { x: p.0 as i64, y: p.1 as i64 }
}

impl Vec2 {
    /// Coordinates small enough for exact distance arithmetic.
    pub open spec fn wf(self) -> bool {
        &&& -FX_LIMIT <= self.x <= FX_LIMIT
        &&& -FX_LIMIT <= self.y <= FX_LIMIT
    }

    pub fn new(x: i64, y: i64) -> (r: Vec2)
        ensures
            r == (Vec2 { x, y }),
    {
        Vec2 { x, y }
    }

    /// The dot product, at raw scale (`FX_ONE` squared).
    pub fn dot(self, other: Vec2) -> (r: i128)
        requires
            self.wf(),
            other.wf(),
        ensures
            r == sp_dot(pt(self), pt(other)),
    {
        proof {
            lemma_dot_bound(pt(self), pt(other));
        }
        (self.x as i128) * (other.x as i128) + (self.y as i128) * (other.y as i128)
    }

    /// The squared magnitude, at raw scale (`FX_ONE` squared).
    pub fn magnitude2(self) -> (r: i128)
        requires
            self.wf(),
        ensures
            r == sp_dot(pt(self), pt(self)),
            r >= 0,
    {
        proof {
            lemma_dot_self_nonneg(pt(self));
        }
        self.dot(self)
    }

    /// The magnitude, in fixed-point units, rounded down.
    pub fn magnitude(self) -> (r: i64)
        requires
            self.wf(),
        ensures
            is_sqrt(r as int, sp_dot(pt(self), pt(self))),
    {
        let m2 = self.magnitude2();
        proof {
            lemma_dist2_bound(pt(self), (0int, 0int));
            assert(sp_dot(pt(self), pt(self)) == sp_dist2(pt(self), (0int, 0int)));
        }
        isqrt(m2 as u128) as i64
    }

    /// Linear interpolation toward `other`; both coordinates stay between
    /// the ends.
    pub fn lerp(self, other: Vec2, t: i64) -> (r: Vec2)
        requires
            self.wf(),
            other.wf(),
            0 <= t <= FX_ONE,
        ensures
            pt(r) == sp_lerp(pt(self), pt(other), t as int),
            r.wf(),
    {
        Vec2 { x: fx_lerp(self.x, other.x, t), y: fx_lerp(self.y, other.y, t) }
    }
}

/// Products of pairs of magnitude at most `2 * FX_LIMIT` stay well inside
/// `i128`, term by term and summed.
proof fn lemma_dot_bound(a: (int, int), b: (int, int))
    requires
        -0x8000_0000_0000 <= a.0 <= 0x8000_0000_0000,
        -0x8000_0000_0000 <= a.1 <= 0x8000_0000_0000,
        -0x8000_0000_0000 <= b.0 <= 0x8000_0000_0000,
        -0x8000_0000_0000 <= b.1 <= 0x8000_0000_0000,
    ensures
        -0x4000_0000_0000_0000_0000_0000 <= a.0 * b.0 <= 0x4000_0000_0000_0000_0000_0000,
        -0x4000_0000_0000_0000_0000_0000 <= a.1 * b.1 <= 0x4000_0000_0000_0000_0000_0000,
        -0x8000_0000_0000_0000_0000_0000 <= sp_dot(a, b) <= 0x8000_0000_0000_0000_0000_0000,
{
    assert(-0x4000_0000_0000_0000_0000_0000 <= a.0 * b.0 <= 0x4000_0000_0000_0000_0000_0000)
        by (nonlinear_arith)
        requires
            -0x8000_0000_0000 <= a.0 <= 0x8000_0000_0000,
            -0x8000_0000_0000 <= b.0 <= 0x8000_0000_0000,
    ;
    assert(-0x4000_0000_0000_0000_0000_0000 <= a.1 * b.1 <= 0x4000_0000_0000_0000_0000_0000)
        by (nonlinear_arith)
        requires
            -0x8000_0000_0000 <= a.1 <= 0x8000_0000_0000,
            -0x8000_0000_0000 <= b.1 <= 0x8000_0000_0000,
    ;
}

/// A dot product of a pair with itself is not negative.
proof fn lemma_dot_self_nonneg(a: (int, int))
    ensures
        sp_dot(a, a) >= 0,
{
    assert(a.0 * a.0 >= 0) by (nonlinear_arith);
    assert(a.1 * a.1 >= 0) by (nonlinear_arith);
}

/// A squared distance of bounded coordinates is not negative and stays well
/// inside `i128`.
proof fn lemma_dist2_bound(a: (int, int), b: (int, int))
    requires
        -FX_LIMIT <= a.0 <= FX_LIMIT,
        -FX_LIMIT <= a.1 <= FX_LIMIT,
        -FX_LIMIT <= b.0 <= FX_LIMIT,
        -FX_LIMIT <= b.1 <= FX_LIMIT,
    ensures
        0 <= (a.0 - b.0) * (a.0 - b.0) <= 0x4000_0000_0000_0000_0000_0000,
        0 <= (a.1 - b.1) * (a.1 - b.1) <= 0x4000_0000_0000_0000_0000_0000,
        0 <= sp_dist2(a, b) < 0x1_0000_0000_0000_0000_0000_0000,
{
    let dx = a.0 - b.0;
    let dy = a.1 - b.1;
    assert(0 <= dx * dx <= 0x4000_0000_0000_0000_0000_0000) by (nonlinear_arith)
        requires
            -0x8000_0000_0000 <= dx <= 0x8000_0000_0000,
    ;
    assert(0 <= dy * dy <= 0x4000_0000_0000_0000_0000_0000) by (nonlinear_arith)
        requires
            -0x8000_0000_0000 <= dy <= 0x8000_0000_0000,
    ;
}

/// A quotient with a positive divisor keeps the magnitude bound of its
/// dividend.
pub proof fn lemma_div_in_range(lhs: int, den: int)
    requires
        1 <= den,
        -0x8_0000_0000_0000_0000_0000_0000_0000 <= lhs <= 0x8_0000_0000_0000_0000_0000_0000_0000,
    ensures
        -0x8_0000_0000_0000_0000_0000_0000_0000 <= lhs / den
            <= 0x8_0000_0000_0000_0000_0000_0000_0000,
{
    lemma_fundamental_div_mod(lhs, den);
    let q = lhs / den;
    let m = lhs % den;
    assert(-0x8_0000_0000_0000_0000_0000_0000_0000 <= q <= 0x8_0000_0000_0000_0000_0000_0000_0000)
        by (nonlinear_arith)
        requires
            lhs == den * q + m,
            0 <= m < den,
            1 <= den,
            -0x8_0000_0000_0000_0000_0000_0000_0000 <= lhs
                <= 0x8_0000_0000_0000_0000_0000_0000_0000,
    ;
}

/// The squared distance of two points, exact.
fn dist2(a: Vec2, b: Vec2) -> (d: i128)
    requires
        a.wf(),
        b.wf(),
    ensures
        d == sp_dist2(pt(a), pt(b)),
        0 <= d < 0x1_0000_0000_0000_0000_0000_0000,
{
    proof {
        lemma_dist2_bound(pt(a), pt(b));
    }
    let dx: i128 = (a.x as i128) - (b.x as i128);
    let dy: i128 = (a.y as i128) - (b.y as i128);
    dx * dx + dy * dy
}

/// A linear segment `B(t) = p0 + t * (p1 - p0)`, `t` in `[0, FX_ONE]`.
#[derive(Clone, Copy, Debug, PartialEq, Eq, Structural)]
pub struct LinearSegment {
    pub p0: Vec2,
    pub p1: Vec2,
}

/// The curve parameter of the point of the segment's carrier line nearest to
/// `p`, clamped to the segment: `(p - p0) . (p1 - p0) / |p1 - p0|^2` on the
/// fixed-point grid.
pub open spec fn sp_line_proj_t(s: LinearSegment, p: Vec2) -> int {
    let a = (pt(s.p1).0 - pt(s.p0).0, pt(s.p1).1 - pt(s.p0).1);
    let m = (pt(p).0 - pt(s.p0).0, pt(p).1 - pt(s.p0).1);
    let den = sp_dot(a, a);
    if den == 0 {
        0
    } else {
        let q = (sp_dot(m, a) * (FX_ONE as int)) / den;
        if q < 0 {
            0
        } else if q > FX_ONE as int {
            FX_ONE as int
        } else {
            q
        }
    }
}

impl LinearSegment {
    /// Coordinates small enough for exact distance arithmetic.
    pub open spec fn wf(self) -> bool {
        self.p0.wf() && self.p1.wf()
    }

    pub fn new(p0: Vec2, p1: Vec2) -> (r: LinearSegment)
        ensures
            r == (LinearSegment { p0, p1 }),
    {
        LinearSegment { p0, p1 }
    }

    /// The least distance from `p` to the segment, in fixed-point units,
    /// rounded down: the least of the distances to the clamped projection of
    /// `p` onto the segment and to the two ends. The result is the rounded
    /// distance to a true point of the segment, at most the distance to
    /// either end, and at most the distance to the projected point.
    pub fn distance(&self, p: Vec2) -> (r: i64)
        requires
            self.wf(),
            p.wf(),
        ensures
            r >= 0,
            r <= 0x1_0000_0000_0000,
            lin_seg_bounded(*self, p, r as int),
            exists|t: int|
                0 <= t <= FX_ONE && is_sqrt(
                    r as int,
                    sp_dist2(sp_lerp(pt(self.p0), pt(self.p1), t), pt(p)),
                ),
    {
        let ax: i128 = (self.p1.x as i128) - (self.p0.x as i128);
        let ay: i128 = (self.p1.y as i128) - (self.p0.y as i128);
        let mx: i128 = (p.x as i128) - (self.p0.x as i128);
        let my: i128 = (p.y as i128) - (self.p0.y as i128);
        proof {
            lemma_dot_bound(
                (pt(p).0 - pt(self.p0).0, pt(p).1 - pt(self.p0).1),
                (pt(self.p1).0 - pt(self.p0).0, pt(self.p1).1 - pt(self.p0).1),
            );
            lemma_dist2_bound(pt(self.p1), pt(self.p0));
            assert(sp_dot(
                (pt(self.p1).0 - pt(self.p0).0, pt(self.p1).1 - pt(self.p0).1),
                (pt(self.p1).0 - pt(self.p0).0, pt(self.p1).1 - pt(self.p0).1),
            ) == sp_dist2(pt(self.p1), pt(self.p0)));
            lemma_lerp_ends(pt(self.p0), pt(self.p1));
        }
        let den: i128 = ax * ax + ay * ay;
        let num: i128 = mx * ax + my * ay;
        let t: i64 = if den == 0 {
            0
        } else {
            proof {
                lemma_div_in_range(num as int * (FX_ONE as int), den as int);
            }
            let q = match (num * (FX_ONE as i128)).checked_div_euclid(den) {
                Some(q) => q,
                None => 0,  // unreachable: the divisor is positive
            };
            if q < 0 {
                0
            } else if q > FX_ONE as i128 {
                FX_ONE
            } else {
                q as i64
            }
        };
        let nearest = self.p0.lerp(self.p1, t);
        let mut best: i128 = dist2(nearest, p);
        let ghost mut best_t: int = t as int;
        let d0 = dist2(self.p0, p);
        if d0 < best {
            best = d0;
            proof {
                best_t = 0;
            }
        }
        let d1 = dist2(self.p1, p);
        if d1 < best {
            best = d1;
            proof {
                best_t = FX_ONE as int;
            }
        }
        let r = isqrt(best as u128) as i64;
        proof {
            lemma_sqrt_le(r as int, best as int, sp_dist2(pt(self.p0), pt(p)));
            lemma_sqrt_le(r as int, best as int, sp_dist2(pt(self.p1), pt(p)));
            lemma_sqrt_le(
                r as int,
                best as int,
                sp_dist2(sp_lerp(pt(self.p0), pt(self.p1), sp_line_proj_t(*self, p)), pt(p)),
            );
            assert(lin_seg_bounded(*self, p, r as int));
        }
        r
    }
}

/// The point of a quadratic Bezier at `t`, by De Casteljau's ladder on the
/// fixed-point grid.
pub open spec fn sp_quad_point(p0: (int, int), p1: (int, int), p2: (int, int), t: int) -> (
    int,
    int,
) {
    sp_lerp(sp_lerp(p0, p1, t), sp_lerp(p1, p2, t), t)
}

/// Half the tangent of a quadratic Bezier at `t`: the difference of the two
/// first-level ladder points.
pub open spec fn sp_quad_half_deriv(p0: (int, int), p1: (int, int), p2: (int, int), t: int) -> (
    int,
    int,
) {
    let m0 = sp_lerp(p0, p1, t);
    let m1 = sp_lerp(p1, p2, t);
    (m1.0 - m0.0, m1.1 - m0.1)
}

/// The point of a cubic Bezier at `t`, by De Casteljau's ladder on the
/// fixed-point grid.
pub open spec fn sp_cubic_point(
    p0: (int, int),
    p1: (int, int),
    p2: (int, int),
    p3: (int, int),
    t: int,
) -> (int, int) {
    let m0 = sp_lerp(p0, p1, t);
    let m1 = sp_lerp(p1, p2, t);
    let m2 = sp_lerp(p2, p3, t);
    sp_lerp(sp_lerp(m0, m1, t), sp_lerp(m1, m2, t), t)
}

/// A third of the tangent of a cubic Bezier at `t`: the difference of the
/// two second-level ladder points.
pub open spec fn sp_cubic_third_deriv(
    p0: (int, int),
    p1: (int, int),
    p2: (int, int),
    p3: (int, int),
    t: int,
) -> (int, int) {
    let m0 = sp_lerp(p0, p1, t);
    let m1 = sp_lerp(p1, p2, t);
    let m2 = sp_lerp(p2, p3, t);
    let c0 = sp_lerp(m0, m1, t);
    let c1 = sp_lerp(m1, m2, t);
    (c1.0 - c0.0, c1.1 - c0.1)
}

/// Interpolation at the parameter ends gives the ends exactly.
proof fn lemma_lerp_ends(a: (int, int), b: (int, int))
    ensures
        sp_lerp(a, b, 0) == a,
        sp_lerp(a, b, FX_ONE as int) == b,
{
    lemma_div_multiples_vanish(b.0 - a.0, FX_ONE as int);
    lemma_div_multiples_vanish(b.1 - a.1, FX_ONE as int);
}

/// The `g`-th of the sixteen grid parameters `g / 15` of the subinterval
/// scan, on the fixed-point grid.
pub open spec fn grid_param(g: int) -> int {
    (g * (FX_ONE as int)) / 15
}

/// The grid parameter `i / 15` of the subinterval scan, on the fixed-point
/// grid.
pub fn grid_t(i: u64) -> (t: i64)
    requires
        i <= 15,
    ensures
        t as int == grid_param(i as int),
        0 <= t <= FX_ONE,
{
    proof {
        lemma_div_is_ordered(0, i as int * (FX_ONE as int), 15);
        lemma_div_is_ordered(i as int * (FX_ONE as int), 15 * (FX_ONE as int), 15);
        lemma_div_multiples_vanish(FX_ONE as int, 15);
    }
    ((i * (FX_ONE as u64)) / 15) as i64
}

/// A square root rounded down is no larger than the root of any larger
/// value.
proof fn lemma_sqrt_le(r: int, x: int, y: int)
    requires
        is_sqrt(r, x),
        x <= y,
    ensures
        r * r <= y,
{
}

/// The distance derivative value of the quadratic at `t`, up to a positive
/// factor: `(B(t) - p) . (m1 - m0)` over the De Casteljau ladder.
pub open spec fn sp_quad_fval(p0: Vec2, p1: Vec2, p2: Vec2, p: Vec2, t: int) -> int {
    let m0 = sp_lerp(pt(p0), pt(p1), t);
    let m1 = sp_lerp(pt(p1), pt(p2), t);
    let b = sp_lerp(m0, m1, t);
    (b.0 - pt(p).0) * (m1.0 - m0.0) + (b.1 - pt(p).1) * (m1.1 - m0.1)
}

/// The quadratic's distance derivative is negative at `t`.
pub open spec fn sp_quad_dd_neg(p0: Vec2, p1: Vec2, p2: Vec2, p: Vec2, t: int) -> bool {
    sp_quad_fval(p0, p1, p2, p, t) < 0
}

/// The quadratic's distance derivative changes sign across the `g`-th scan
/// subinterval.
pub open spec fn sp_quad_dd_flip(p0: Vec2, p1: Vec2, p2: Vec2, p: Vec2, g: int) -> bool {
    sp_quad_dd_neg(p0, p1, p2, p, grid_param(g)) != sp_quad_dd_neg(
        p0,
        p1,
        p2,
        p,
        grid_param(g + 1),
    )
}

/// Where the quadratic's distance derivative sign at `a` matches `low_neg`
/// and flips somewhere in `[a, b]`: the parameter bisection converges to.
pub open spec fn sp_quad_dd_bisect(
    p0: Vec2,
    p1: Vec2,
    p2: Vec2,
    p: Vec2,
    a: int,
    b: int,
    low_neg: bool,
) -> int
    decreases b - a,
{
    if b - a <= 1 {
        a
    } else {
        let mid = a + (b - a) / 2;
        if sp_quad_dd_neg(p0, p1, p2, p, mid) == low_neg {
            sp_quad_dd_bisect(p0, p1, p2, p, mid, b, low_neg)
        } else {
            sp_quad_dd_bisect(p0, p1, p2, p, a, mid, low_neg)
        }
    }
}

/// The distance derivative value of the cubic at `t`, up to a positive
/// factor: `(B(t) - p) . (c1 - c0)` over the De Casteljau ladder.
pub open spec fn sp_cubic_fval(p0: Vec2, p1: Vec2, p2: Vec2, p3: Vec2, p: Vec2, t: int) -> int {
    let m0 = sp_lerp(pt(p0), pt(p1), t);
    let m1 = sp_lerp(pt(p1), pt(p2), t);
    let m2 = sp_lerp(pt(p2), pt(p3), t);
    let c0 = sp_lerp(m0, m1, t);
    let c1 = sp_lerp(m1, m2, t);
    let b = sp_lerp(c0, c1, t);
    (b.0 - pt(p).0) * (c1.0 - c0.0) + (b.1 - pt(p).1) * (c1.1 - c0.1)
}

/// The cubic's distance derivative is negative at `t`.
pub open spec fn sp_cubic_dd_neg(p0: Vec2, p1: Vec2, p2: Vec2, p3: Vec2, p: Vec2, t: int) -> bool {
    sp_cubic_fval(p0, p1, p2, p3, p, t) < 0
}

/// The cubic's distance derivative changes sign across the `g`-th scan
/// subinterval.
pub open spec fn sp_cubic_dd_flip(
    p0: Vec2,
    p1: Vec2,
    p2: Vec2,
    p3: Vec2,
    p: Vec2,
    g: int,
) -> bool {
    sp_cubic_dd_neg(p0, p1, p2, p3, p, grid_param(g)) != sp_cubic_dd_neg(
        p0,
        p1,
        p2,
        p3,
        p,
        grid_param(g + 1),
    )
}

/// Where the cubic's distance derivative sign at `a` matches `low_neg` and
/// flips somewhere in `[a, b]`: the parameter bisection converges to.
pub open spec fn sp_cubic_dd_bisect(
    p0: Vec2,
    p1: Vec2,
    p2: Vec2,
    p3: Vec2,
    p: Vec2,
    a: int,
    b: int,
    low_neg: bool,
) -> int
    decreases b - a,
{
    if b - a <= 1 {
        a
    } else {
        let mid = a + (b - a) / 2;
        if sp_cubic_dd_neg(p0, p1, p2, p3, p, mid) == low_neg {
            sp_cubic_dd_bisect(p0, p1, p2, p3, p, mid, b, low_neg)
        } else {
            sp_cubic_dd_bisect(p0, p1, p2, p3, p, a, mid, low_neg)
        }
    }
}

/// A quadratic Bezier segment
/// `B(t) = (1-t)^2 p0 + 2 (1-t) t p1 + t^2 p2`, `t` in `[0, FX_ONE]`.
#[derive(Clone, Copy, Debug, PartialEq, Eq, Structural)]
pub struct QuadraticSegment {
    pub p0: Vec2,
    pub p1: Vec2,
    pub p2: Vec2,
}

impl QuadraticSegment {
    /// Coordinates small enough for exact distance arithmetic.
    pub open spec fn wf(self) -> bool {
        self.p0.wf() && self.p1.wf() && self.p2.wf()
    }

    pub fn new(p0: Vec2, p1: Vec2, p2: Vec2) -> (r: QuadraticSegment)
        ensures
            r == (QuadraticSegment { p0, p1, p2 }),
    {
        QuadraticSegment { p0, p1, p2 }
    }

    /// The point of the segment at `t`, on the fixed-point grid.
    pub fn eval_point(&self, t: i64) -> (r: Vec2)
        requires
            self.wf(),
            0 <= t <= FX_ONE,
        ensures
            pt(r) == sp_quad_point(pt(self.p0), pt(self.p1), pt(self.p2), t as int),
            r.wf(),
    {
        let m0 = self.p0.lerp(self.p1, t);
        let m1 = self.p1.lerp(self.p2, t);
        m0.lerp(m1, t)
    }

    /// The tangent (first derivative) of the segment at `t`, on the
    /// fixed-point grid.
    pub fn eval_tangent(&self, t: i64) -> (r: Vec2)
        requires
            self.wf(),
            0 <= t <= FX_ONE,
        ensures
            pt(r).0 == 2 * sp_quad_half_deriv(pt(self.p0), pt(self.p1), pt(self.p2), t as int).0,
            pt(r).1 == 2 * sp_quad_half_deriv(pt(self.p0), pt(self.p1), pt(self.p2), t as int).1,
    {
        let m0 = self.p0.lerp(self.p1, t);
        let m1 = self.p1.lerp(self.p2, t);
        Vec2 { x: 2 * (m1.x - m0.x), y: 2 * (m1.y - m0.y) }
    }

    /// The value whose roots in `t` are the critical points of the squared
    /// distance from `p` to the segment: `(B(t) - p) . B'(t)`, up to a
    /// positive factor.
    fn deriv_dot(&self, p: Vec2, t: i64) -> (v: i128)
        requires
            self.wf(),
            p.wf(),
            0 <= t <= FX_ONE,
        ensures
            v == sp_quad_fval(self.p0, self.p1, self.p2, p, t as int),
    {
        let m0 = self.p0.lerp(self.p1, t);
        let m1 = self.p1.lerp(self.p2, t);
        let b = m0.lerp(m1, t);
        proof {
            lemma_dot_bound(
                (pt(b).0 - pt(p).0, pt(b).1 - pt(p).1),
                (pt(m1).0 - pt(m0).0, pt(m1).1 - pt(m0).1),
            );
        }
        let dx: i128 = (b.x as i128) - (p.x as i128);
        let dy: i128 = (b.y as i128) - (p.y as i128);
        let ex: i128 = (m1.x as i128) - (m0.x as i128);
        let ey: i128 = (m1.y as i128) - (m0.y as i128);
        dx * ex + dy * ey
    }

    /// Shrink `[a, b]` by bisection toward a sign change of the distance
    /// derivative; the result stays inside the bracket.
    fn bisect(&self, p: Vec2, a0: i64, b0: i64, low_neg: bool) -> (t: i64)
        requires
            self.wf(),
            p.wf(),
            0 <= a0 <= b0 <= FX_ONE,
        ensures
            a0 <= t <= b0,
            t as int == sp_quad_dd_bisect(
                self.p0,
                self.p1,
                self.p2,
                p,
                a0 as int,
                b0 as int,
                low_neg,
            ),
    {
        let mut a = a0;
        let mut b = b0;
        while b - a > 1
            invariant
                self.wf(),
                p.wf(),
                a0 <= a <= b <= b0 <= FX_ONE,
                0 <= a0,
                sp_quad_dd_bisect(self.p0, self.p1, self.p2, p, a as int, b as int, low_neg)
                    == sp_quad_dd_bisect(
                    self.p0,
                    self.p1,
                    self.p2,
                    p,
                    a0 as int,
                    b0 as int,
                    low_neg,
                ),
            decreases b - a,
        {
            let mid = a + (((b - a) as u64) / 2) as i64;
            if (self.deriv_dot(p, mid) < 0) == low_neg {
                a = mid;
            } else {
                b = mid;
            }
        }
        a
    }

    /// The least distance from `p` over a set of candidate parameters — the
    /// sixteen grid parameters `g / 15` and the bisected roots of the
    /// distance derivative on the subintervals where its sign changes — in
    /// fixed-point units, rounded down. The result is the rounded distance
    /// to a true point of the segment, and is at most the distance to the
    /// curve point at every grid parameter (the ends among them) and at
    /// every bisected root.
    pub fn distance(&self, p: Vec2) -> (r: i64)
        requires
            self.wf(),
            p.wf(),
        ensures
            r >= 0,
            r <= 0x1_0000_0000_0000,
            quad_seg_bounded(*self, p, r as int),
            exists|t: int|
                0 <= t <= FX_ONE && is_sqrt(
                    r as int,
                    sp_dist2(sp_quad_point(pt(self.p0), pt(self.p1), pt(self.p2), t), pt(p)),
                ),
    {
        proof {
            lemma_lerp_ends(pt(self.p0), pt(self.p1));
            lemma_lerp_ends(pt(self.p1), pt(self.p2));
            lemma_lerp_ends(
                sp_lerp(pt(self.p0), pt(self.p1), 0),
                sp_lerp(pt(self.p1), pt(self.p2), 0),
            );
            lemma_lerp_ends(
                sp_lerp(pt(self.p0), pt(self.p1), FX_ONE as int),
                sp_lerp(pt(self.p1), pt(self.p2), FX_ONE as int),
            );
        }
        let e0 = self.eval_point(0);
        let e1 = self.eval_point(FX_ONE);
        let mut best: i128 = dist2(e0, p);
        let ghost mut best_t: int = 0;
        let d_end = dist2(e1, p);
        if d_end < best {
            best = d_end;
            proof {
                best_t = FX_ONE as int;
            }
        }
        proof {
            lemma_div_of0(15);
            assert(grid_param(0) == 0);
        }
        let mut i: u64 = 0;
        let mut prev_t: i64 = 0;
        let mut prev_neg: bool = self.deriv_dot(p, 0) < 0;
        while i < 15
            invariant
                self.wf(),
                p.wf(),
                i <= 15,
                prev_t as int == grid_param(i as int),
                0 <= prev_t <= FX_ONE,
                0 <= best_t <= FX_ONE,
                0 <= best < 0x1_0000_0000_0000_0000_0000_0000,
                best == sp_dist2(
                    sp_quad_point(pt(self.p0), pt(self.p1), pt(self.p2), best_t),
                    pt(p),
                ),
                best <= sp_dist2(pt(self.p0), pt(p)),
                best <= sp_dist2(pt(self.p2), pt(p)),
                prev_neg == sp_quad_dd_neg(self.p0, self.p1, self.p2, p, grid_param(i as int)),
                forall|g: int|
                    0 <= g <= i ==> best <= sp_dist2(
                        sp_quad_point(
                            pt(self.p0),
                            pt(self.p1),
                            pt(self.p2),
                            #[trigger] grid_param(g),
                        ),
                        pt(p),
                    ),
                forall|g: int|
                    0 <= g < i && sp_quad_dd_flip(self.p0, self.p1, self.p2, p, g) ==> best
                        <= sp_dist2(
                        sp_quad_point(
                            pt(self.p0),
                            pt(self.p1),
                            pt(self.p2),
                            sp_quad_dd_bisect(
                                self.p0,
                                self.p1,
                                self.p2,
                                p,
                                #[trigger] grid_param(g),
                                grid_param(g + 1),
                                sp_quad_dd_neg(self.p0, self.p1, self.p2, p, grid_param(g)),
                            ),
                        ),
                        pt(p),
                    ),
            decreases 15 - i,
        {
            let next_t = grid_t(i + 1);
            proof {
                lemma_div_is_ordered(
                    i as int * (FX_ONE as int),
                    (i + 1) as int * (FX_ONE as int),
                    15,
                );
            }
            let next_neg = self.deriv_dot(p, next_t) < 0;
            if next_neg != prev_neg {
                let t = self.bisect(p, prev_t, next_t, prev_neg);
                let c = self.eval_point(t);
                let d = dist2(c, p);
                if d < best {
                    best = d;
                    proof {
                        best_t = t as int;
                    }
                }
            }
            let cg = self.eval_point(next_t);
            let dg = dist2(cg, p);
            if dg < best {
                best = dg;
                proof {
                    best_t = next_t as int;
                }
            }
            prev_t = next_t;
            prev_neg = next_neg;
            i = i + 1;
        }
        let r = isqrt(best as u128) as i64;
        proof {
            lemma_sqrt_le(r as int, best as int, sp_dist2(pt(self.p0), pt(p)));
            lemma_sqrt_le(r as int, best as int, sp_dist2(pt(self.p2), pt(p)));
            assert(quad_seg_bounded(*self, p, r as int));
        }
        r
    }
}

/// A cubic Bezier segment
/// `B(t) = (1-t)^3 p0 + 3 (1-t)^2 t p1 + 3 (1-t) t^2 p2 + t^3 p3`,
/// `t` in `[0, FX_ONE]`.
#[derive(Clone, Copy, Debug, PartialEq, Eq, Structural)]
pub struct CubicSegment {
    pub p0: Vec2,
    pub p1: Vec2,
    pub p2: Vec2,
    pub p3: Vec2,
}

impl CubicSegment {
    /// Coordinates small enough for exact distance arithmetic.
    pub open spec fn wf(self) -> bool {
        self.p0.wf() && self.p1.wf() && self.p2.wf() && self.p3.wf()
    }

    pub fn new(p0: Vec2, p1: Vec2, p2: Vec2, p3: Vec2) -> (r: CubicSegment)
        ensures
            r == (CubicSegment { p0, p1, p2, p3 }),
    {
        CubicSegment { p0, p1, p2, p3 }
    }

    /// The point of the segment at `t`, on the fixed-point grid.
    pub fn eval_point(&self, t: i64) -> (r: Vec2)
        requires
            self.wf(),
            0 <= t <= FX_ONE,
        ensures
            pt(r) == sp_cubic_point(pt(self.p0), pt(self.p1), pt(self.p2), pt(self.p3), t as int),
            r.wf(),
    {
        let m0 = self.p0.lerp(self.p1, t);
        let m1 = self.p1.lerp(self.p2, t);
        let m2 = self.p2.lerp(self.p3, t);
        let c0 = m0.lerp(m1, t);
        let c1 = m1.lerp(m2, t);
        c0.lerp(c1, t)
    }

    /// The tangent (first derivative) of the segment at `t`, on the
    /// fixed-point grid.
    pub fn eval_tangent(&self, t: i64) -> (r: Vec2)
        requires
            self.wf(),
            0 <= t <= FX_ONE,
        ensures
            pt(r).0 == 3 * sp_cubic_third_deriv(
                pt(self.p0),
                pt(self.p1),
                pt(self.p2),
                pt(self.p3),
                t as int,
            ).0,
            pt(r).1 == 3 * sp_cubic_third_deriv(
                pt(self.p0),
                pt(self.p1),
                pt(self.p2),
                pt(self.p3),
                t as int,
            ).1,
    {
        let m0 = self.p0.lerp(self.p1, t);
        let m1 = self.p1.lerp(self.p2, t);
        let m2 = self.p2.lerp(self.p3, t);
        let c0 = m0.lerp(m1, t);
        let c1 = m1.lerp(m2, t);
        Vec2 { x: 3 * (c1.x - c0.x), y: 3 * (c1.y - c0.y) }
    }

    /// The value whose roots in `t` are the critical points of the squared
    /// distance from `p` to the segment: `(B(t) - p) . B'(t)`, up to a
    /// positive factor.
    fn deriv_dot(&self, p: Vec2, t: i64) -> (v: i128)
        requires
            self.wf(),
            p.wf(),
            0 <= t <= FX_ONE,
        ensures
            v == sp_cubic_fval(self.p0, self.p1, self.p2, self.p3, p, t as int),
    {
        let m0 = self.p0.lerp(self.p1, t);
        let m1 = self.p1.lerp(self.p2, t);
        let m2 = self.p2.lerp(self.p3, t);
        let c0 = m0.lerp(m1, t);
        let c1 = m1.lerp(m2, t);
        let b = c0.lerp(c1, t);
        proof {
            lemma_dot_bound(
                (pt(b).0 - pt(p).0, pt(b).1 - pt(p).1),
                (pt(c1).0 - pt(c0).0, pt(c1).1 - pt(c0).1),
            );
        }
        let dx: i128 = (b.x as i128) - (p.x as i128);
        let dy: i128 = (b.y as i128) - (p.y as i128);
        let ex: i128 = (c1.x as i128) - (c0.x as i128);
        let ey: i128 = (c1.y as i128) - (c0.y as i128);
        dx * ex + dy * ey
    }

    /// Shrink `[a, b]` by bisection toward a sign change of the distance
    /// derivative; the result stays inside the bracket.
    fn bisect(&self, p: Vec2, a0: i64, b0: i64, low_neg: bool) -> (t: i64)
        requires
            self.wf(),
            p.wf(),
            0 <= a0 <= b0 <= FX_ONE,
        ensures
            a0 <= t <= b0,
            t as int == sp_cubic_dd_bisect(
                self.p0,
                self.p1,
                self.p2,
                self.p3,
                p,
                a0 as int,
                b0 as int,
                low_neg,
            ),
    {
        let mut a = a0;
        let mut b = b0;
        while b - a > 1
            invariant
                self.wf(),
                p.wf(),
                a0 <= a <= b <= b0 <= FX_ONE,
                0 <= a0,
                sp_cubic_dd_bisect(
                    self.p0,
                    self.p1,
                    self.p2,
                    self.p3,
                    p,
                    a as int,
                    b as int,
                    low_neg,
                ) == sp_cubic_dd_bisect(
                    self.p0,
                    self.p1,
                    self.p2,
                    self.p3,
                    p,
                    a0 as int,
                    b0 as int,
                    low_neg,
                ),
            decreases b - a,
        {
            let mid = a + (((b - a) as u64) / 2) as i64;
            if (self.deriv_dot(p, mid) < 0) == low_neg {
                a = mid;
            } else {
                b = mid;
            }
        }
        a
    }

    /// The least distance from `p` over a set of candidate parameters — the
    /// sixteen grid parameters `g / 15` and the bracketed roots of the
    /// distance derivative on the fifteen subintervals between them — in
    /// fixed-point units, rounded down. The result is the rounded distance
    /// to a true point of the segment, and is at most the distance to the
    /// curve point at every grid parameter (the ends among them).
    pub fn distance(&self, p: Vec2) -> (r: i64)
        requires
            self.wf(),
            p.wf(),
        ensures
            r >= 0,
            r <= 0x1_0000_0000_0000,
            cubic_seg_bounded(*self, p, r as int),
            exists|t: int|
                0 <= t <= FX_ONE && is_sqrt(
                    r as int,
                    sp_dist2(
                        sp_cubic_point(pt(self.p0), pt(self.p1), pt(self.p2), pt(self.p3), t),
                        pt(p),
                    ),
                ),
    {
        proof {
            lemma_lerp_ends(pt(self.p0), pt(self.p1));
            lemma_lerp_ends(pt(self.p1), pt(self.p2));
            lemma_lerp_ends(pt(self.p2), pt(self.p3));
            lemma_lerp_ends(
                sp_lerp(pt(self.p0), pt(self.p1), 0),
                sp_lerp(pt(self.p1), pt(self.p2), 0),
            );
            lemma_lerp_ends(
                sp_lerp(pt(self.p1), pt(self.p2), 0),
                sp_lerp(pt(self.p2), pt(self.p3), 0),
            );
            lemma_lerp_ends(
                sp_lerp(sp_lerp(pt(self.p0), pt(self.p1), 0), sp_lerp(pt(self.p1), pt(self.p2), 0), 0),
                sp_lerp(sp_lerp(pt(self.p1), pt(self.p2), 0), sp_lerp(pt(self.p2), pt(self.p3), 0), 0),
            );
            let one = FX_ONE as int;
            lemma_lerp_ends(
                sp_lerp(pt(self.p0), pt(self.p1), one),
                sp_lerp(pt(self.p1), pt(self.p2), one),
            );
            lemma_lerp_ends(
                sp_lerp(pt(self.p1), pt(self.p2), one),
                sp_lerp(pt(self.p2), pt(self.p3), one),
            );
            lemma_lerp_ends(
                sp_lerp(
                    sp_lerp(pt(self.p0), pt(self.p1), one),
                    sp_lerp(pt(self.p1), pt(self.p2), one),
                    one,
                ),
                sp_lerp(
                    sp_lerp(pt(self.p1), pt(self.p2), one),
                    sp_lerp(pt(self.p2), pt(self.p3), one),
                    one,
                ),
            );
        }
        let e0 = self.eval_point(0);
        let e1 = self.eval_point(FX_ONE);
        let mut best: i128 = dist2(e0, p);
        let ghost mut best_t: int = 0;
        let d_end = dist2(e1, p);
        if d_end < best {
            best = d_end;
            proof {
                best_t = FX_ONE as int;
            }
        }
        proof {
            lemma_div_of0(15);
            assert(grid_param(0) == 0);
        }
        let mut i: u64 = 0;
        let mut prev_t: i64 = 0;
        let mut prev_neg: bool = self.deriv_dot(p, 0) < 0;
        while i < 15
            invariant
                self.wf(),
                p.wf(),
                i <= 15,
                prev_t as int == grid_param(i as int),
                0 <= prev_t <= FX_ONE,
                0 <= best_t <= FX_ONE,
                0 <= best < 0x1_0000_0000_0000_0000_0000_0000,
                best == sp_dist2(
                    sp_cubic_point(pt(self.p0), pt(self.p1), pt(self.p2), pt(self.p3), best_t),
                    pt(p),
                ),
                best <= sp_dist2(pt(self.p0), pt(p)),
                best <= sp_dist2(pt(self.p3), pt(p)),
                prev_neg == sp_cubic_dd_neg(
                    self.p0,
                    self.p1,
                    self.p2,
                    self.p3,
                    p,
                    grid_param(i as int),
                ),
                forall|g: int|
                    0 <= g <= i ==> best <= sp_dist2(
                        sp_cubic_point(
                            pt(self.p0),
                            pt(self.p1),
                            pt(self.p2),
                            pt(self.p3),
                            #[trigger] grid_param(g),
                        ),
                        pt(p),
                    ),
                forall|g: int|
                    0 <= g < i && sp_cubic_dd_flip(self.p0, self.p1, self.p2, self.p3, p, g)
                        ==> best <= sp_dist2(
                        sp_cubic_point(
                            pt(self.p0),
                            pt(self.p1),
                            pt(self.p2),
                            pt(self.p3),
                            sp_cubic_dd_bisect(
                                self.p0,
                                self.p1,
                                self.p2,
                                self.p3,
                                p,
                                #[trigger] grid_param(g),
                                grid_param(g + 1),
                                sp_cubic_dd_neg(
                                    self.p0,
                                    self.p1,
                                    self.p2,
                                    self.p3,
                                    p,
                                    grid_param(g),
                                ),
                            ),
                        ),
                        pt(p),
                    ),
            decreases 15 - i,
        {
            let next_t = grid_t(i + 1);
            proof {
                lemma_div_is_ordered(
                    i as int * (FX_ONE as int),
                    (i + 1) as int * (FX_ONE as int),
                    15,
                );
            }
            let next_neg = self.deriv_dot(p, next_t) < 0;
            if next_neg != prev_neg {
                let t = self.bisect(p, prev_t, next_t, prev_neg);
                let c = self.eval_point(t);
                let d = dist2(c, p);
                if d < best {
                    best = d;
                    proof {
                        best_t = t as int;
                    }
                }
            }
            let cg = self.eval_point(next_t);
            let dg = dist2(cg, p);
            if dg < best {
                best = dg;
                proof {
                    best_t = next_t as int;
                }
            }
            prev_t = next_t;
            prev_neg = next_neg;
            i = i + 1;
        }
        let r = isqrt(best as u128) as i64;
        proof {
            lemma_sqrt_le(r as int, best as int, sp_dist2(pt(self.p0), pt(p)));
            lemma_sqrt_le(r as int, best as int, sp_dist2(pt(self.p3), pt(p)));
            assert(cubic_seg_bounded(*self, p, r as int));
        }
        r
    }
}

/// The scanline parameter of a rising line segment: `(y - y0) / (y1 - y0)`
/// on the fixed-point grid.
pub open spec fn sp_scan_t(y0: int, y1: int, y: int) -> int {
    ((y - y0) * (FX_ONE as int)) / (y1 - y0)
}

/// The X of the intersection between the horizontal scanline at `y` and a
/// line segment rising through it: the segment's point at the scanline
/// parameter, which lies between the two end Xs.
pub fn line_intersection(y: i64, p0: Vec2, p1: Vec2) -> (x: i64)
    requires
        p0.wf(),
        p1.wf(),
        p0.y <= y < p1.y,
    ensures
        x as int == sp_fx_lerp(
            p0.x as int,
            p1.x as int,
            sp_scan_t(p0.y as int, p1.y as int, y as int),
        ),
        p0.x <= p1.x ==> p0.x <= x <= p1.x,
        p1.x <= p0.x ==> p1.x <= x <= p0.x,
{
    let den: i64 = p1.y - p0.y;
    proof {
        assert(0 <= (y - p0.y) as int * (FX_ONE as int) <= 0x10_0000_0000_0000_0000)
            by (nonlinear_arith)
            requires
                0 <= (y - p0.y) as int <= 0x8000_0000_0000,
        ;
    }
    let num: i128 = ((y - p0.y) as i128) * (FX_ONE as i128);
    let q: i128 = match num.checked_div_euclid(den as i128) {
        Some(q) => q,
        None => 0,  // unreachable: the divisor is positive
    };
    proof {
        lemma_div_pos_is_pos(num as int, den as int);
        lemma_mul_inequality((y - p0.y) as int, den as int, FX_ONE as int);
        lemma_div_is_ordered(num as int, den as int * (FX_ONE as int), den as int);
        lemma_div_multiples_vanish(FX_ONE as int, den as int);
    }
    let t = q as i64;
    fx_lerp(p0.x, p1.x, t)
}

/// `x` is the quadratic's X at parameter `t`, where the curve's Y crosses
/// the scanline at `y` between `t` and the neighbouring grid parameter.
pub open spec fn quad_scan_bracket(
    p0: Vec2,
    p1: Vec2,
    p2: Vec2,
    y: int,
    t: int,
    x: int,
) -> bool {
    &&& 0 <= t < FX_ONE
    &&& x == sp_quad_point(pt(p0), pt(p1), pt(p2), t).0
    &&& sp_quad_point(pt(p0), pt(p1), pt(p2), t).1 <= y
    &&& y < sp_quad_point(pt(p0), pt(p1), pt(p2), t + 1).1
}

/// `x` is the cubic's X at parameter `t`, where the curve's Y crosses the
/// scanline at `y` between `t` and the neighbouring grid parameter.
pub open spec fn cubic_scan_bracket(
    p0: Vec2,
    p1: Vec2,
    p2: Vec2,
    p3: Vec2,
    y: int,
    t: int,
    x: int,
) -> bool {
    &&& 0 <= t < FX_ONE
    &&& x == sp_cubic_point(pt(p0), pt(p1), pt(p2), pt(p3), t).0
    &&& sp_cubic_point(pt(p0), pt(p1), pt(p2), pt(p3), t).1 <= y
    &&& y < sp_cubic_point(pt(p0), pt(p1), pt(p2), pt(p3), t + 1).1
}

/// The X of the intersection between the scanline at `y` and a quadratic
/// Bezier rising through it: the curve's X at a parameter where the curve's
/// Y crosses the scanline between two neighbouring grid parameters, found
/// by bisection.
pub fn quadratic_intersection(y: i64, p0: Vec2, p1: Vec2, p2: Vec2) -> (x: i64)
    requires
        p0.wf(),
        p1.wf(),
        p2.wf(),
        p0.y <= y < p2.y,
    ensures
        exists|t: int| #[trigger] quad_scan_bracket(p0, p1, p2, y as int, t, x as int),
{
    let seg = QuadraticSegment { p0, p1, p2 };
    proof {
        lemma_lerp_ends(pt(p0), pt(p1));
        lemma_lerp_ends(pt(p1), pt(p2));
        lemma_lerp_ends(sp_lerp(pt(p0), pt(p1), 0), sp_lerp(pt(p1), pt(p2), 0));
        lemma_lerp_ends(
            sp_lerp(pt(p0), pt(p1), FX_ONE as int),
            sp_lerp(pt(p1), pt(p2), FX_ONE as int),
        );
    }
    let mut a: i64 = 0;
    let mut b: i64 = FX_ONE;
    while b - a > 1
        invariant
            seg == (QuadraticSegment { p0, p1, p2 }),
            seg.wf(),
            0 <= a < b <= FX_ONE,
            sp_quad_point(pt(p0), pt(p1), pt(p2), a as int).1 <= y,
            y < sp_quad_point(pt(p0), pt(p1), pt(p2), b as int).1,
        decreases b - a,
    {
        let mid = a + (((b - a) as u64) / 2) as i64;
        let m = seg.eval_point(mid);
        if m.y <= y {
            a = mid;
        } else {
            b = mid;
        }
    }
    let c = seg.eval_point(a);
    proof {
        assert(sp_quad_point(pt(p0), pt(p1), pt(p2), a as int + 1).1 > y);
        assert(quad_scan_bracket(p0, p1, p2, y as int, a as int, c.x as int));
    }
    c.x
}

/// The X of the intersection between the scanline at `y` and a cubic
/// Bezier rising through it: the curve's X at a parameter where the curve's
/// Y crosses the scanline between two neighbouring grid parameters, found
/// by bisection.
pub fn cubic_intersection(y: i64, p0: Vec2, p1: Vec2, p2: Vec2, p3: Vec2) -> (x: i64)
    requires
        p0.wf(),
        p1.wf(),
        p2.wf(),
        p3.wf(),
        p0.y <= y < p3.y,
    ensures
        exists|t: int| #[trigger] cubic_scan_bracket(p0, p1, p2, p3, y as int, t, x as int),
{
    let seg = CubicSegment { p0, p1, p2, p3 };
    proof {
        lemma_lerp_ends(pt(p0), pt(p1));
        lemma_lerp_ends(pt(p1), pt(p2));
        lemma_lerp_ends(pt(p2), pt(p3));
        lemma_lerp_ends(sp_lerp(pt(p0), pt(p1), 0), sp_lerp(pt(p1), pt(p2), 0));
        lemma_lerp_ends(sp_lerp(pt(p1), pt(p2), 0), sp_lerp(pt(p2), pt(p3), 0));
        lemma_lerp_ends(
            sp_lerp(sp_lerp(pt(p0), pt(p1), 0), sp_lerp(pt(p1), pt(p2), 0), 0),
            sp_lerp(sp_lerp(pt(p1), pt(p2), 0), sp_lerp(pt(p2), pt(p3), 0), 0),
        );
        let one = FX_ONE as int;
        lemma_lerp_ends(sp_lerp(pt(p0), pt(p1), one), sp_lerp(pt(p1), pt(p2), one));
        lemma_lerp_ends(sp_lerp(pt(p1), pt(p2), one), sp_lerp(pt(p2), pt(p3), one));
        lemma_lerp_ends(
            sp_lerp(sp_lerp(pt(p0), pt(p1), one), sp_lerp(pt(p1), pt(p2), one), one),
            sp_lerp(sp_lerp(pt(p1), pt(p2), one), sp_lerp(pt(p2), pt(p3), one), one),
        );
    }
    let mut a: i64 = 0;
    let mut b: i64 = FX_ONE;
    while b - a > 1
        invariant
            seg == (CubicSegment { p0, p1, p2, p3 }),
            seg.wf(),
            0 <= a < b <= FX_ONE,
            sp_cubic_point(pt(p0), pt(p1), pt(p2), pt(p3), a as int).1 <= y,
            y < sp_cubic_point(pt(p0), pt(p1), pt(p2), pt(p3), b as int).1,
        decreases b - a,
    {
        let mid = a + (((b - a) as u64) / 2) as i64;
        let m = seg.eval_point(mid);
        if m.y <= y {
            a = mid;
        } else {
            b = mid;
        }
    }
    let c = seg.eval_point(a);
    proof {
        assert(sp_cubic_point(pt(p0), pt(p1), pt(p2), pt(p3), a as int + 1).1 > y);
        assert(cubic_scan_bracket(p0, p1, p2, p3, y as int, a as int, c.x as int));
    }
    c.x
}

/// `r` is at most the rounded distance from `p` to every candidate point of
/// the line segment: both ends and the clamped projection.
pub open spec fn lin_seg_bounded(s: LinearSegment, p: Vec2, r: int) -> bool {
    &&& r * r <= sp_dist2(pt(s.p0), pt(p))
    &&& r * r <= sp_dist2(pt(s.p1), pt(p))
    &&& r * r <= sp_dist2(sp_lerp(pt(s.p0), pt(s.p1), sp_line_proj_t(s, p)), pt(p))
}

/// `r` is at most the rounded distance from `p` to every candidate point of
/// the quadratic: the curve at each of the sixteen grid parameters (the
/// ends among them) and at each bisected root of the distance derivative.
pub open spec fn quad_seg_bounded(s: QuadraticSegment, p: Vec2, r: int) -> bool {
    &&& r * r <= sp_dist2(pt(s.p0), pt(p))
    &&& r * r <= sp_dist2(pt(s.p2), pt(p))
    &&& forall|g: int|
        0 <= g <= 15 ==> r * r <= sp_dist2(
            sp_quad_point(pt(s.p0), pt(s.p1), pt(s.p2), #[trigger] grid_param(g)),
            pt(p),
        )
    &&& forall|g: int|
        0 <= g < 15 && sp_quad_dd_flip(s.p0, s.p1, s.p2, p, g) ==> r * r <= sp_dist2(
            sp_quad_point(
                pt(s.p0),
                pt(s.p1),
                pt(s.p2),
                sp_quad_dd_bisect(
                    s.p0,
                    s.p1,
                    s.p2,
                    p,
                    #[trigger] grid_param(g),
                    grid_param(g + 1),
                    sp_quad_dd_neg(s.p0, s.p1, s.p2, p, grid_param(g)),
                ),
            ),
            pt(p),
        )
}

/// `r` is at most the rounded distance from `p` to every candidate point of
/// the cubic: the curve at each of the sixteen grid parameters (the ends
/// among them) and at each bisected root of the distance derivative.
pub open spec fn cubic_seg_bounded(s: CubicSegment, p: Vec2, r: int) -> bool {
    &&& r * r <= sp_dist2(pt(s.p0), pt(p))
    &&& r * r <= sp_dist2(pt(s.p3), pt(p))
    &&& forall|g: int|
        0 <= g <= 15 ==> r * r <= sp_dist2(
            sp_cubic_point(pt(s.p0), pt(s.p1), pt(s.p2), pt(s.p3), #[trigger] grid_param(g)),
            pt(p),
        )
    &&& forall|g: int|
        0 <= g < 15 && sp_cubic_dd_flip(s.p0, s.p1, s.p2, s.p3, p, g) ==> r * r <= sp_dist2(
            sp_cubic_point(
                pt(s.p0),
                pt(s.p1),
                pt(s.p2),
                pt(s.p3),
                sp_cubic_dd_bisect(
                    s.p0,
                    s.p1,
                    s.p2,
                    s.p3,
                    p,
                    #[trigger] grid_param(g),
                    grid_param(g + 1),
                    sp_cubic_dd_neg(s.p0, s.p1, s.p2, s.p3, p, grid_param(g)),
                ),
            ),
            pt(p),
        )
}

/// A smaller non-negative bound stays a bound.
pub proof fn lemma_lin_bounded_mono(s: LinearSegment, p: Vec2, a: int, b: int)
    requires
        0 <= a <= b,
        lin_seg_bounded(s, p, b),
    ensures
        lin_seg_bounded(s, p, a),
{
    lemma_sq_mono(a, b);
}

/// A smaller non-negative bound stays a bound.
pub proof fn lemma_quad_bounded_mono(s: QuadraticSegment, p: Vec2, a: int, b: int)
    requires
        0 <= a <= b,
        quad_seg_bounded(s, p, b),
    ensures
        quad_seg_bounded(s, p, a),
{
    lemma_sq_mono(a, b);
}

/// A smaller non-negative bound stays a bound.
pub proof fn lemma_cubic_bounded_mono(s: CubicSegment, p: Vec2, a: int, b: int)
    requires
        0 <= a <= b,
        cubic_seg_bounded(s, p, b),
    ensures
        cubic_seg_bounded(s, p, a),
{
    lemma_sq_mono(a, b);
}

/// Squaring keeps order on the non-negative side.
proof fn lemma_sq_mono(a: int, b: int)
    requires
        0 <= a <= b,
    ensures
        a * a <= b * b,
{
    assert(a * a <= b * b) by (nonlinear_arith)
        requires
            0 <= a <= b,
    ;
}

} // verus!
