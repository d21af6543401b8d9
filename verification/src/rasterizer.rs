//! The scanline rasterizer: Bezier segments split into Y-monotonic
//! profiles on the fixed-point grid, queried for oriented crossings per
//! scanline.
//!
//! Splitting is exact De Casteljau interpolation at the extremum parameter,
//! so the two halves share the split point exactly. A stored profile rises
//! strictly from its first to its last control point, with the inner
//! control Ys ordered within a small tolerance; a profile that cannot meet
//! this (a horizontal piece, or a degenerate rounding case) contributes no
//! crossing and is dropped.

use vstd::prelude::*;
use crate::curve::FX_ONE;
use crate::curve::Vec2;
use crate::curve::cubic_intersection;
use crate::curve::cubic_scan_bracket;
use crate::curve::grid_param;
use vstd::arithmetic::div_mod::lemma_div_of0;
use crate::curve::line_intersection;
use crate::curve::quad_scan_bracket;
use crate::curve::quadratic_intersection;
use crate::curve::pt;
use crate::curve::sp_lerp;
use crate::curve::sp_cubic_third_deriv;
use crate::curve::sp_quad_point;
use crate::curve::vec2_of;
use crate::curve::sp_fx_lerp;
use crate::curve::sp_scan_t;

verus! {

/// The ordering tolerance for a profile's inner control Ys: 5e-5 units on
/// the fixed-point grid.
pub const FX_EPS: i64 = 53;

/// A single oriented intersection of the outline with a scanline: `dir` is
/// `1` where the curve's Y increases through the crossing and `-1` where it
/// decreases; `x` is in fixed-point units.
#[derive(Clone, Copy, Debug, PartialEq, Eq, Structural)]
pub struct OrientedCrossing {
    pub dir: i8,
    pub x: i64,
}

impl OrientedCrossing {
    pub fn new(dir: i8, x: i64) -> (r: OrientedCrossing)
        ensures
            r == (OrientedCrossing { dir, x }),
    {
        OrientedCrossing { dir, x }
    }
}

/// A rising line piece with the direction of the original segment.
#[derive(Clone, Copy, Debug, PartialEq, Eq, Structural)]
pub struct LinearProfile {
    pub dir: i8,
    pub p0: Vec2,
    pub p1: Vec2,
}

impl LinearProfile {
    pub fn new(dir: i8, p0: Vec2, p1: Vec2) -> (r: LinearProfile)
        ensures
            r == (LinearProfile { dir, p0, p1 }),
    {
        LinearProfile { dir, p0, p1 }
    }

    /// The data-model invariant: the piece rises strictly in Y.
    pub open spec fn wf(self) -> bool {
        &&& self.p0.wf()
        &&& self.p1.wf()
        &&& self.p0.y < self.p1.y
        &&& self.dir == 1 || self.dir == -1
    }
}

/// A Y-monotonic quadratic piece with the direction of the original curve.
#[derive(Clone, Copy, Debug, PartialEq, Eq, Structural)]
pub struct QuadraticProfile {
    pub dir: i8,
    pub p0: Vec2,
    pub p1: Vec2,
    pub p2: Vec2,
}

impl QuadraticProfile {
    pub fn new(dir: i8, p0: Vec2, p1: Vec2, p2: Vec2) -> (r: QuadraticProfile)
        ensures
            r == (QuadraticProfile { dir, p0, p1, p2 }),
    {
        QuadraticProfile { dir, p0, p1, p2 }
    }

    /// The data-model invariant: the piece rises strictly in Y end to end,
    /// with the inner control Y ordered within the tolerance.
    pub open spec fn wf(self) -> bool {
        &&& self.p0.wf()
        &&& self.p1.wf()
        &&& self.p2.wf()
        &&& self.p0.y < self.p2.y
        &&& self.p0.y <= self.p1.y + FX_EPS
        &&& self.p1.y <= self.p2.y + FX_EPS
        &&& self.dir == 1 || self.dir == -1
    }
}

/// A Y-monotonic cubic piece with the direction of the original curve.
#[derive(Clone, Copy, Debug, PartialEq, Eq, Structural)]
pub struct CubicProfile {
    pub dir: i8,
    pub p0: Vec2,
    pub p1: Vec2,
    pub p2: Vec2,
    pub p3: Vec2,
}

impl CubicProfile {
    pub fn new(dir: i8, p0: Vec2, p1: Vec2, p2: Vec2, p3: Vec2) -> (r: CubicProfile)
        ensures
            r == (CubicProfile { dir, p0, p1, p2, p3 }),
    {
        CubicProfile { dir, p0, p1, p2, p3 }
    }

    /// The data-model invariant: the piece rises strictly in Y end to end,
    /// with the inner control Ys ordered within the tolerance.
    pub open spec fn wf(self) -> bool {
        &&& self.p0.wf()
        &&& self.p1.wf()
        &&& self.p2.wf()
        &&& self.p3.wf()
        &&& self.p0.y < self.p3.y
        &&& self.p0.y <= self.p1.y + FX_EPS
        &&& self.p1.y <= self.p2.y + FX_EPS
        &&& self.p2.y <= self.p3.y + FX_EPS
        &&& self.dir == 1 || self.dir == -1
    }
}

/// The scanline at `y` runs through the profile's half-open Y range
/// `[first.y, last.y)`; half-open, so a junction of two contour pieces is
/// counted once.
pub open spec fn lin_hit(p: LinearProfile, y: int) -> bool {
    p.p0.y <= y < p.p1.y
}

pub open spec fn quad_hit(p: QuadraticProfile, y: int) -> bool {
    p.p0.y <= y < p.p2.y
}

pub open spec fn cubic_hit(p: CubicProfile, y: int) -> bool {
    p.p0.y <= y < p.p3.y
}

/// How many stored line pieces the scanline at `y` runs through.
pub open spec fn lin_hits(s: Seq<LinearProfile>, y: int) -> int
    decreases s.len(),
{
    if s.len() == 0 {
        0
    } else {
        lin_hits(s.drop_last(), y) + if lin_hit(s.last(), y) {
            1int
        } else {
            0int
        }
    }
}

/// How many stored quadratic pieces the scanline at `y` runs through.
pub open spec fn quad_hits(s: Seq<QuadraticProfile>, y: int) -> int
    decreases s.len(),
{
    if s.len() == 0 {
        0
    } else {
        quad_hits(s.drop_last(), y) + if quad_hit(s.last(), y) {
            1int
        } else {
            0int
        }
    }
}

/// How many stored cubic pieces the scanline at `y` runs through.
pub open spec fn cubic_hits(s: Seq<CubicProfile>, y: int) -> int
    decreases s.len(),
{
    if s.len() == 0 {
        0
    } else {
        cubic_hits(s.drop_last(), y) + if cubic_hit(s.last(), y) {
            1int
        } else {
            0int
        }
    }
}

/// The crossing `c` comes from a stored profile that the scanline at `y`
/// runs through: it carries that profile's direction, and its X is the
/// profile's X where the profile crosses the scanline.
pub open spec fn crossing_found(rz: Rasterizer, y: int, c: OrientedCrossing) -> bool {
    ||| exists|i: int|
        #![trigger rz.linear_profiles@[i]]
        0 <= i < rz.linear_profiles@.len() && {
            let p = rz.linear_profiles@[i];
            &&& lin_hit(p, y)
            &&& c.dir == p.dir
            &&& c.x as int == sp_fx_lerp(
                p.p0.x as int,
                p.p1.x as int,
                sp_scan_t(p.p0.y as int, p.p1.y as int, y),
            )
        }
    ||| exists|i: int, t: int|
        #![trigger
            quad_scan_bracket(
                rz.quadratic_profiles@[i].p0,
                rz.quadratic_profiles@[i].p1,
                rz.quadratic_profiles@[i].p2,
                y,
                t,
                c.x as int,
            )
        ]
        0 <= i < rz.quadratic_profiles@.len() && {
            let p = rz.quadratic_profiles@[i];
            &&& quad_hit(p, y)
            &&& c.dir == p.dir
            &&& quad_scan_bracket(p.p0, p.p1, p.p2, y, t, c.x as int)
        }
    ||| exists|i: int, t: int|
        #![trigger
            cubic_scan_bracket(
                rz.cubic_profiles@[i].p0,
                rz.cubic_profiles@[i].p1,
                rz.cubic_profiles@[i].p2,
                rz.cubic_profiles@[i].p3,
                y,
                t,
                c.x as int,
            )
        ]
        0 <= i < rz.cubic_profiles@.len() && {
            let p = rz.cubic_profiles@[i];
            &&& cubic_hit(p, y)
            &&& cubic_scan_bracket(p.p0, p.p1, p.p2, p.p3, y, t, c.x as int)
            &&& c.dir == p.dir
        }
}

/// What the monotonic quadratic push stores over `s`: the rising
/// orientation of the piece with the original direction, or `s` unchanged
/// where neither orientation rises within tolerance.
pub open spec fn quad_store(
    s: Seq<QuadraticProfile>,
    p0: Vec2,
    p1: Vec2,
    p2: Vec2,
) -> Seq<QuadraticProfile> {
    let asc = QuadraticProfile { dir: 1i8, p0, p1, p2 };
    let desc = QuadraticProfile { dir: -1i8, p0: p2, p1, p2: p0 };
    if asc.wf() {
        s.push(asc)
    } else if desc.wf() {
        s.push(desc)
    } else {
        s
    }
}

/// What the monotonic cubic push stores over `s`: the rising orientation of
/// the piece with the original direction, or `s` unchanged where neither
/// orientation rises within tolerance.
pub open spec fn cubic_store(
    s: Seq<CubicProfile>,
    p0: Vec2,
    p1: Vec2,
    p2: Vec2,
    p3: Vec2,
) -> Seq<CubicProfile> {
    let asc = CubicProfile { dir: 1i8, p0, p1, p2, p3 };
    let desc = CubicProfile { dir: -1i8, p0: p3, p1: p2, p2: p1, p3: p0 };
    if asc.wf() {
        s.push(asc)
    } else if desc.wf() {
        s.push(desc)
    } else {
        s
    }
}

/// The parameter of a quadratic's single Y extremum on the fixed-point
/// grid: `(p0.y - p1.y) / (p0.y - 2 p1.y + p2.y)`, rounded toward zero's
/// side of the divisor; `0` where the curve's Y is of degree one or less.
pub open spec fn sp_quad_split_t(p0: Vec2, p1: Vec2, p2: Vec2) -> int {
    let den = p0.y - 2 * p1.y + p2.y;
    let num = (p0.y - p1.y) * (FX_ONE as int);
    if den == 0 {
        0
    } else if den > 0 {
        num / den
    } else {
        (-num) / (-den)
    }
}

/// The cubic's Y slope at `t` is negative, up to the positive factor three.
pub open spec fn sp_slope_neg(p0: Vec2, p1: Vec2, p2: Vec2, p3: Vec2, t: int) -> bool {
    sp_cubic_third_deriv(pt(p0), pt(p1), pt(p2), pt(p3), t).1 < 0
}

/// The cubic's Y slope changes sign across the `g`-th scan subinterval.
pub open spec fn sp_flip(p0: Vec2, p1: Vec2, p2: Vec2, p3: Vec2, g: int) -> bool {
    sp_slope_neg(p0, p1, p2, p3, grid_param(g)) != sp_slope_neg(p0, p1, p2, p3, grid_param(g + 1))
}

/// The first scan subinterval at or after `g` across which the cubic's Y
/// slope changes sign; `15` where none does.
pub open spec fn sp_first_flip(p0: Vec2, p1: Vec2, p2: Vec2, p3: Vec2, g: int) -> int
    decreases 15 - g,
{
    if g < 0 || g >= 15 {
        15
    } else if sp_flip(p0, p1, p2, p3, g) {
        g
    } else {
        sp_first_flip(p0, p1, p2, p3, g + 1)
    }
}

/// Where the cubic's Y slope sign at `a` matches `low_neg` and flips
/// somewhere in `[a, b]`: the parameter bisection converges to.
pub open spec fn sp_slope_bisect(
    p0: Vec2,
    p1: Vec2,
    p2: Vec2,
    p3: Vec2,
    a: int,
    b: int,
    low_neg: bool,
) -> int
    decreases b - a,
{
    if b - a <= 1 {
        a
    } else {
        let mid = a + (b - a) / 2;
        if sp_slope_neg(p0, p1, p2, p3, mid) == low_neg {
            sp_slope_bisect(p0, p1, p2, p3, mid, b, low_neg)
        } else {
            sp_slope_bisect(p0, p1, p2, p3, a, mid, low_neg)
        }
    }
}

/// `sp_first_flip` stays between its start and `15`.
proof fn lemma_first_flip_bounds(p0: Vec2, p1: Vec2, p2: Vec2, p3: Vec2, g: int)
    requires
        0 <= g <= 15,
    ensures
        g <= sp_first_flip(p0, p1, p2, p3, g) <= 15,
    decreases 15 - g,
{
    if g < 15 && !sp_flip(p0, p1, p2, p3, g) {
        lemma_first_flip_bounds(p0, p1, p2, p3, g + 1);
    }
}

/// A flip at `k` bounds the first flip from `g <= k` by `k`.
proof fn lemma_first_flip_le(p0: Vec2, p1: Vec2, p2: Vec2, p3: Vec2, g: int, k: int)
    requires
        0 <= g <= k < 15,
        sp_flip(p0, p1, p2, p3, k),
    ensures
        sp_first_flip(p0, p1, p2, p3, g) <= k,
    decreases k - g,
{
    if g < k && !sp_flip(p0, p1, p2, p3, g) {
        lemma_first_flip_le(p0, p1, p2, p3, g + 1, k);
    }
}

/// No flip before `i` bounds the first flip from `g` by `i` from below.
proof fn lemma_first_flip_ge(p0: Vec2, p1: Vec2, p2: Vec2, p3: Vec2, g: int, i: int)
    requires
        0 <= g <= i <= 15,
        forall|m: int| g <= m < i ==> !sp_flip(p0, p1, p2, p3, m),
    ensures
        sp_first_flip(p0, p1, p2, p3, g) >= i,
    decreases i - g,
{
    if g < i {
        lemma_first_flip_ge(p0, p1, p2, p3, g + 1, i);
    } else {
        lemma_first_flip_bounds(p0, p1, p2, p3, g);
    }
}

/// The pieces `push_bezier3` stores over `s`: the curve whole where its Y
/// slope never changes sign inside the parameter range (or the split
/// parameter degenerates to an end); otherwise the exact De Casteljau
/// pieces at the bisected first flip and, where a second flip follows at a
/// usable remapped parameter, at that one too.
pub open spec fn sp_push_bezier3_result(
    s: Seq<CubicProfile>,
    p0: Vec2,
    p1: Vec2,
    p2: Vec2,
    p3: Vec2,
) -> Seq<CubicProfile> {
    let g1 = sp_first_flip(p0, p1, p2, p3, 0);
    if g1 >= 15 {
        cubic_store(s, p0, p1, p2, p3)
    } else {
        let t1 = sp_slope_bisect(
            p0,
            p1,
            p2,
            p3,
            grid_param(g1),
            grid_param(g1 + 1),
            sp_slope_neg(p0, p1, p2, p3, grid_param(g1)),
        );
        if t1 <= 0 || t1 >= FX_ONE {
            cubic_store(s, p0, p1, p2, p3)
        } else {
            let m0 = vec2_of(sp_lerp(pt(p0), pt(p1), t1));
            let m1 = vec2_of(sp_lerp(pt(p1), pt(p2), t1));
            let m2 = vec2_of(sp_lerp(pt(p2), pt(p3), t1));
            let c0 = vec2_of(sp_lerp(pt(m0), pt(m1), t1));
            let c1 = vec2_of(sp_lerp(pt(m1), pt(m2), t1));
            let q = vec2_of(sp_lerp(pt(c0), pt(c1), t1));
            let left = cubic_store(s, p0, m0, c0, q);
            let g2 = sp_first_flip(p0, p1, p2, p3, g1 + 1);
            let rest_t = sp_rest_t(p0, p1, p2, p3, g1, g2, t1);
            if 0 < rest_t < FX_ONE {
                let n0 = vec2_of(sp_lerp(pt(q), pt(c1), rest_t));
                let n1 = vec2_of(sp_lerp(pt(c1), pt(m2), rest_t));
                let n2 = vec2_of(sp_lerp(pt(m2), pt(p3), rest_t));
                let o0 = vec2_of(sp_lerp(pt(n0), pt(n1), rest_t));
                let o1 = vec2_of(sp_lerp(pt(n1), pt(n2), rest_t));
                let w = vec2_of(sp_lerp(pt(o0), pt(o1), rest_t));
                cubic_store(cubic_store(left, q, n0, o0, w), w, o1, n2, p3)
            } else {
                cubic_store(left, q, c1, m2, p3)
            }
        }
    }
}

/// The second split parameter remapped into the right piece's range:
/// `(t2 - t1) / (1 - t1)`, or `0` where there is no usable second flip.
pub open spec fn sp_rest_t(
    p0: Vec2,
    p1: Vec2,
    p2: Vec2,
    p3: Vec2,
    g1: int,
    g2: int,
    t1: int,
) -> int {
    if g2 >= 15 {
        0
    } else {
        let t2 = sp_slope_bisect(
            p0,
            p1,
            p2,
            p3,
            grid_param(g2),
            grid_param(g2 + 1),
            sp_slope_neg(p0, p1, p2, p3, grid_param(g2)),
        );
        if t2 > t1 && t1 < FX_ONE {
            ((t2 - t1) * (FX_ONE as int)) / (FX_ONE - t1)
        } else {
            0
        }
    }
}

/// The crossings are in ascending X order.
pub open spec fn crossings_sorted(s: Seq<OrientedCrossing>) -> bool {
    forall|i: int, j: int| 0 <= i <= j < s.len() ==> s[i].x <= s[j].x
}

/// The scanline rasterizer: push curves in, evaluate a scanline, read
/// sorted oriented crossings — enough to compute winding numbers and fill
/// spans by the non-zero rule.
pub struct Rasterizer {
    pub linear_profiles: Vec<LinearProfile>,
    pub quadratic_profiles: Vec<QuadraticProfile>,
    pub cubic_profiles: Vec<CubicProfile>,
}

impl Rasterizer {
    /// The data-model invariant of spec for profiles: everything stored is
    /// a rising piece.
    pub open spec fn wf(&self) -> bool {
        &&& forall|i: int|
            0 <= i < self.linear_profiles@.len() ==> (#[trigger] self.linear_profiles@[i]).wf()
        &&& forall|i: int|
            0 <= i < self.quadratic_profiles@.len() ==> (
            #[trigger] self.quadratic_profiles@[i]).wf()
        &&& forall|i: int|
            0 <= i < self.cubic_profiles@.len() ==> (#[trigger] self.cubic_profiles@[i]).wf()
    }

    /// An empty rasterizer.
    pub fn new() -> (r: Rasterizer)
        ensures
            r.wf(),
            r.linear_profiles@.len() == 0,
            r.quadratic_profiles@.len() == 0,
            r.cubic_profiles@.len() == 0,
    {
        Rasterizer {
            linear_profiles: Vec::new(),
            quadratic_profiles: Vec::new(),
            cubic_profiles: Vec::new(),
        }
    }

    /// Store a line, oriented so that Y rises and carrying the original
    /// direction; a horizontal line contributes no crossing and is dropped.
    pub fn push_line(&mut self, p0: Vec2, p1: Vec2)
        requires
            old(self).wf(),
            p0.wf(),
            p1.wf(),
        ensures
            final(self).wf(),
            final(self).quadratic_profiles@ == old(self).quadratic_profiles@,
            final(self).cubic_profiles@ == old(self).cubic_profiles@,
            final(self).linear_profiles@ == if p0.y < p1.y {
                old(self).linear_profiles@.push(LinearProfile { dir: 1i8, p0, p1 })
            } else if p1.y < p0.y {
                old(self).linear_profiles@.push(LinearProfile { dir: -1i8, p0: p1, p1: p0 })
            } else {
                old(self).linear_profiles@
            },
    {
        if p0.y < p1.y {
            self.linear_profiles.push(LinearProfile { dir: 1, p0, p1 });
        } else if p1.y < p0.y {
            self.linear_profiles.push(LinearProfile { dir: -1, p0: p1, p1: p0 });
        }
    }

    /// Store a Y-monotonic quadratic piece, oriented so that Y rises and
    /// carrying the original direction; a piece that does not rise strictly,
    /// or whose inner control Y falls outside the ordering tolerance (a
    /// degenerate rounding case), contributes no crossing and is dropped.
    pub fn push_bezier2_monotonic(&mut self, p0: Vec2, p1: Vec2, p2: Vec2)
        requires
            old(self).wf(),
            p0.wf(),
            p1.wf(),
            p2.wf(),
        ensures
            final(self).wf(),
            final(self).linear_profiles@ == old(self).linear_profiles@,
            final(self).cubic_profiles@ == old(self).cubic_profiles@,
            final(self).quadratic_profiles@ == quad_store(
                old(self).quadratic_profiles@,
                p0,
                p1,
                p2,
            ),
    {
        if p0.y < p2.y && p0.y <= p1.y + FX_EPS && p1.y <= p2.y + FX_EPS {
            self.quadratic_profiles.push(QuadraticProfile { dir: 1, p0, p1, p2 });
        } else if p2.y < p0.y && p2.y <= p1.y + FX_EPS && p1.y <= p0.y + FX_EPS {
            self.quadratic_profiles.push(QuadraticProfile { dir: -1, p0: p2, p1, p2: p0 });
        }
    }

    /// Split a quadratic Bezier at its Y extremum, if it has one strictly
    /// inside the parameter range, and store the monotonic pieces. The split
    /// is exact De Casteljau interpolation, so both halves share the split
    /// point exactly.
    pub fn push_bezier2(&mut self, p0: Vec2, p1: Vec2, p2: Vec2)
        requires
            old(self).wf(),
            p0.wf(),
            p1.wf(),
            p2.wf(),
        ensures
            final(self).wf(),
            final(self).linear_profiles@ == old(self).linear_profiles@,
            final(self).cubic_profiles@ == old(self).cubic_profiles@,
            final(self).quadratic_profiles@ == ({
                let t = sp_quad_split_t(p0, p1, p2);
                if 0 < t < FX_ONE {
                    let m0 = vec2_of(sp_lerp(pt(p0), pt(p1), t));
                    let m1 = vec2_of(sp_lerp(pt(p1), pt(p2), t));
                    let n0 = vec2_of(sp_quad_point(pt(p0), pt(p1), pt(p2), t));
                    quad_store(quad_store(old(self).quadratic_profiles@, p0, m0, n0), n0, m1, p2)
                } else {
                    quad_store(old(self).quadratic_profiles@, p0, p1, p2)
                }
            }),
    {
        // the single Y extremum is at (p0.y - p1.y) / (p0.y - 2 p1.y + p2.y)
        let den: i64 = p0.y - 2 * p1.y + p2.y;
        let mut split_t: i64 = 0;
        if den != 0 {
            proof {
                assert(-0x10_0000_0000_0000_0000 <= (p0.y - p1.y) as int * (FX_ONE as int)
                    <= 0x10_0000_0000_0000_0000) by (nonlinear_arith)
                    requires
                        -0x8000_0000_0000 <= (p0.y - p1.y) as int <= 0x8000_0000_0000,
                ;
            }
            let num: i128 = ((p0.y - p1.y) as i128) * (FX_ONE as i128);
            let (nn, dd): (i128, i128) = if den > 0 {
                (num, den as i128)
            } else {
                (-num, -(den as i128))
            };
            proof {
                crate::curve::lemma_div_in_range(nn as int, dd as int);
            }
            let q = match nn.checked_div_euclid(dd) {
                Some(q) => q,
                None => 0,  // unreachable: the divisor is positive
            };
            if 0 < q && q < FX_ONE as i128 {
                split_t = q as i64;
            }
        }
        proof {
            assert(split_t > 0 ==> split_t as int == sp_quad_split_t(p0, p1, p2));
            assert(split_t == 0 ==> !(0 < sp_quad_split_t(p0, p1, p2) < FX_ONE));
        }
        if split_t > 0 {
            let m0 = p0.lerp(p1, split_t);
            let m1 = p1.lerp(p2, split_t);
            let n0 = m0.lerp(m1, split_t);
            proof {
                assert(m0 == vec2_of(sp_lerp(pt(p0), pt(p1), split_t as int)));
                assert(m1 == vec2_of(sp_lerp(pt(p1), pt(p2), split_t as int)));
                assert(n0 == vec2_of(sp_quad_point(pt(p0), pt(p1), pt(p2), split_t as int)));
            }
            self.push_bezier2_monotonic(p0, m0, n0);
            self.push_bezier2_monotonic(n0, m1, p2);
        } else {
            self.push_bezier2_monotonic(p0, p1, p2);
        }
    }

    /// Store a Y-monotonic cubic piece, oriented so that Y rises and
    /// carrying the original direction; a piece that does not rise strictly,
    /// or whose inner control Ys fall outside the ordering tolerance (a
    /// degenerate rounding case), contributes no crossing and is dropped.
    pub fn push_bezier3_monotonic(&mut self, p0: Vec2, p1: Vec2, p2: Vec2, p3: Vec2)
        requires
            old(self).wf(),
            p0.wf(),
            p1.wf(),
            p2.wf(),
            p3.wf(),
        ensures
            final(self).wf(),
            final(self).linear_profiles@ == old(self).linear_profiles@,
            final(self).quadratic_profiles@ == old(self).quadratic_profiles@,
            final(self).cubic_profiles@ == cubic_store(
                old(self).cubic_profiles@,
                p0,
                p1,
                p2,
                p3,
            ),
    {
        if p0.y < p3.y && p0.y <= p1.y + FX_EPS && p1.y <= p2.y + FX_EPS && p2.y <= p3.y
            + FX_EPS {
            self.cubic_profiles.push(CubicProfile { dir: 1, p0, p1, p2, p3 });
        } else if p3.y < p0.y && p3.y <= p2.y + FX_EPS && p2.y <= p1.y + FX_EPS && p1.y <= p0.y
            + FX_EPS {
            self.cubic_profiles.push(CubicProfile { dir: -1, p0: p3, p1: p2, p2: p1, p3: p0 });
        }
    }

    /// Split a cubic Bezier at its Y extrema and store the monotonic
    /// pieces. The extrema are where the Y derivative — a quadratic —
    /// changes sign, found by a bracketed scan of the fifteen subintervals;
    /// each split is exact De Casteljau interpolation.
    pub fn push_bezier3(&mut self, p0: Vec2, p1: Vec2, p2: Vec2, p3: Vec2)
        requires
            old(self).wf(),
            p0.wf(),
            p1.wf(),
            p2.wf(),
            p3.wf(),
        ensures
            final(self).wf(),
            final(self).linear_profiles@ == old(self).linear_profiles@,
            final(self).quadratic_profiles@ == old(self).quadratic_profiles@,
            final(self).cubic_profiles@ == sp_push_bezier3_result(
                old(self).cubic_profiles@,
                p0,
                p1,
                p2,
                p3,
            ),
    {
        let mut t1: i64 = 0;
        let mut have1 = false;
        let ghost mut g1g: int = 15;
        let mut t2: i64 = 0;
        let mut have2 = false;
        let ghost mut g2g: int = 15;
        let mut i: u64 = 0;
        let mut prev_t: i64 = 0;
        proof {
            lemma_div_of0(15);
            assert(grid_param(0) == 0);
        }
        let mut prev_neg: bool = cubic_y_slope(p0, p1, p2, p3, 0) < 0;
        while i < 15
            invariant
                p0.wf(),
                p1.wf(),
                p2.wf(),
                p3.wf(),
                i <= 15,
                prev_t as int == grid_param(i as int),
                0 <= prev_t <= FX_ONE,
                prev_neg == sp_slope_neg(p0, p1, p2, p3, grid_param(i as int)),
                0 <= t2 <= FX_ONE,
                0 <= t1 <= FX_ONE,
                !have1 ==> t1 == 0 && !have2 && g1g == 15 && forall|m: int|
                    0 <= m < i ==> !sp_flip(p0, p1, p2, p3, m),
                !have2 ==> g2g == 15,
                have1 ==> {
                    &&& 0 <= g1g < i
                    &&& sp_flip(p0, p1, p2, p3, g1g)
                    &&& forall|m: int| 0 <= m < g1g ==> !sp_flip(p0, p1, p2, p3, m)
                    &&& t1 as int == sp_slope_bisect(
                        p0,
                        p1,
                        p2,
                        p3,
                        grid_param(g1g),
                        grid_param(g1g + 1),
                        sp_slope_neg(p0, p1, p2, p3, grid_param(g1g)),
                    )
                },
                have1 && !have2 ==> forall|m: int| g1g < m < i ==> !sp_flip(p0, p1, p2, p3, m),
                have2 ==> have1 && {
                    &&& g1g < g2g < i
                    &&& sp_flip(p0, p1, p2, p3, g2g)
                    &&& forall|m: int| g1g < m < g2g ==> !sp_flip(p0, p1, p2, p3, m)
                    &&& t2 as int == sp_slope_bisect(
                        p0,
                        p1,
                        p2,
                        p3,
                        grid_param(g2g),
                        grid_param(g2g + 1),
                        sp_slope_neg(p0, p1, p2, p3, grid_param(g2g)),
                    )
                },
            decreases 15 - i,
        {
            let next_t = crate::curve::grid_t(i + 1);
            proof {
                vstd::arithmetic::div_mod::lemma_div_is_ordered(
                    i as int * (FX_ONE as int),
                    (i + 1) as int * (FX_ONE as int),
                    15,
                );
            }
            let next_neg = cubic_y_slope(p0, p1, p2, p3, next_t) < 0;
            if next_neg != prev_neg {
                let t = cubic_slope_bisect(p0, p1, p2, p3, prev_t, next_t, prev_neg);
                if !have1 {
                    t1 = t;
                    have1 = true;
                    proof {
                        g1g = i as int;
                    }
                } else if !have2 {
                    t2 = t;
                    have2 = true;
                    proof {
                        g2g = i as int;
                    }
                }
            }
            prev_t = next_t;
            prev_neg = next_neg;
            i = i + 1;
        }
        proof {
            if have1 {
                lemma_first_flip_le(p0, p1, p2, p3, 0, g1g);
                lemma_first_flip_ge(p0, p1, p2, p3, 0, g1g);
                assert(sp_first_flip(p0, p1, p2, p3, 0) == g1g);
                if have2 {
                    lemma_first_flip_le(p0, p1, p2, p3, g1g + 1, g2g);
                    lemma_first_flip_ge(p0, p1, p2, p3, g1g + 1, g2g);
                    assert(sp_first_flip(p0, p1, p2, p3, g1g + 1) == g2g);
                } else {
                    lemma_first_flip_ge(p0, p1, p2, p3, g1g + 1, 15);
                    lemma_first_flip_bounds(p0, p1, p2, p3, g1g + 1);
                    assert(sp_first_flip(p0, p1, p2, p3, g1g + 1) == 15);
                }
            } else {
                lemma_first_flip_ge(p0, p1, p2, p3, 0, 15);
                lemma_first_flip_bounds(p0, p1, p2, p3, 0);
                assert(sp_first_flip(p0, p1, p2, p3, 0) == 15);
            }
        }
        if !have1 || t1 == 0 || t1 >= FX_ONE {
            // no sign change strictly inside: the curve is already monotonic
            self.push_bezier3_monotonic(p0, p1, p2, p3);
        } else {
            let m0 = p0.lerp(p1, t1);
            let m1 = p1.lerp(p2, t1);
            let m2 = p2.lerp(p3, t1);
            let c0 = m0.lerp(m1, t1);
            let c1 = m1.lerp(m2, t1);
            let q = c0.lerp(c1, t1);
            proof {
                assert(m0 == vec2_of(sp_lerp(pt(p0), pt(p1), t1 as int)));
                assert(m1 == vec2_of(sp_lerp(pt(p1), pt(p2), t1 as int)));
                assert(m2 == vec2_of(sp_lerp(pt(p2), pt(p3), t1 as int)));
                assert(c0 == vec2_of(sp_lerp(pt(m0), pt(m1), t1 as int)));
                assert(c1 == vec2_of(sp_lerp(pt(m1), pt(m2), t1 as int)));
                assert(q == vec2_of(sp_lerp(pt(c0), pt(c1), t1 as int)));
            }
            self.push_bezier3_monotonic(p0, m0, c0, q);
            let mut rest_t: i64 = 0;
            if have2 && t2 > t1 {
                // remap the second sign change into the right piece's
                // parameter range: (t2 - t1) / (1 - t1)
                let den: i64 = FX_ONE - t1;
                let num: i128 = ((t2 - t1) as i128) * (FX_ONE as i128);
                proof {
                    crate::curve::lemma_div_in_range(num as int, den as int);
                }
                let r = match num.checked_div_euclid(den as i128) {
                    Some(r) => r,
                    None => 0,  // unreachable: the divisor is positive
                };
                proof {
                    assert(r as int == sp_rest_t(p0, p1, p2, p3, g1g, g2g, t1 as int));
                }
                if 0 < r && r < FX_ONE as i128 {
                    rest_t = r as i64;
                }
            }
            proof {
                assert(rest_t > 0 ==> rest_t as int == sp_rest_t(
                    p0,
                    p1,
                    p2,
                    p3,
                    g1g,
                    g2g,
                    t1 as int,
                ));
                assert(rest_t == 0 ==> !(0 < sp_rest_t(p0, p1, p2, p3, g1g, g2g, t1 as int)
                    < FX_ONE));
            }
            if rest_t > 0 {
                let n0 = q.lerp(c1, rest_t);
                let n1 = c1.lerp(m2, rest_t);
                let n2 = m2.lerp(p3, rest_t);
                let o0 = n0.lerp(n1, rest_t);
                let o1 = n1.lerp(n2, rest_t);
                let w = o0.lerp(o1, rest_t);
                proof {
                    assert(n0 == vec2_of(sp_lerp(pt(q), pt(c1), rest_t as int)));
                    assert(n1 == vec2_of(sp_lerp(pt(c1), pt(m2), rest_t as int)));
                    assert(n2 == vec2_of(sp_lerp(pt(m2), pt(p3), rest_t as int)));
                    assert(o0 == vec2_of(sp_lerp(pt(n0), pt(n1), rest_t as int)));
                    assert(o1 == vec2_of(sp_lerp(pt(n1), pt(n2), rest_t as int)));
                    assert(w == vec2_of(sp_lerp(pt(o0), pt(o1), rest_t as int)));
                }
                self.push_bezier3_monotonic(q, n0, o0, w);
                self.push_bezier3_monotonic(w, o1, n2, p3);
            } else {
                self.push_bezier3_monotonic(q, c1, m2, p3);
            }
        }
    }

    /// All oriented crossings of the stored profiles with the scanline at
    /// `y`: one per profile whose half-open Y range contains `y`, each
    /// carrying that profile's direction and crossing X, in ascending X
    /// order.
    pub fn scanline_crossings(&self, y: i64) -> (r: Vec<OrientedCrossing>)
        requires
            self.wf(),
        ensures
            r@.len() == lin_hits(self.linear_profiles@, y as int) + quad_hits(
                self.quadratic_profiles@,
                y as int,
            ) + cubic_hits(self.cubic_profiles@, y as int),
            crossings_sorted(r@),
            forall|k: int| 0 <= k < r@.len() ==> crossing_found(*self, y as int, #[trigger] r@[k]),
    {
        let mut found: Vec<OrientedCrossing> = Vec::new();
        let mut i: usize = 0;
        while i < self.linear_profiles.len()
            invariant
                self.wf(),
                i <= self.linear_profiles@.len(),
                found@.len() == lin_hits(self.linear_profiles@.take(i as int), y as int),
                forall|k: int|
                    0 <= k < found@.len() ==> crossing_found(*self, y as int, #[trigger] found@[k]),
            decreases self.linear_profiles@.len() - i,
        {
            let p = self.linear_profiles[i];
            if p.p0.y <= y && y < p.p1.y {
                let x = line_intersection(y, p.p0, p.p1);
                let c = OrientedCrossing { dir: p.dir, x };
                proof {
                    assert(crossing_found(*self, y as int, c));
                }
                found.push(c);
            }
            proof {
                assert(self.linear_profiles@.take(i + 1).drop_last() =~= self.linear_profiles@.take(
                    i as int,
                ));
                assert(self.linear_profiles@.take(i + 1).last() == self.linear_profiles@[i as int]);
            }
            i = i + 1;
        }
        proof {
            assert(self.linear_profiles@.take(self.linear_profiles@.len() as int)
                =~= self.linear_profiles@);
        }
        let mut j: usize = 0;
        while j < self.quadratic_profiles.len()
            invariant
                self.wf(),
                j <= self.quadratic_profiles@.len(),
                found@.len() == lin_hits(self.linear_profiles@, y as int) + quad_hits(
                    self.quadratic_profiles@.take(j as int),
                    y as int,
                ),
                forall|k: int|
                    0 <= k < found@.len() ==> crossing_found(*self, y as int, #[trigger] found@[k]),
            decreases self.quadratic_profiles@.len() - j,
        {
            let p = self.quadratic_profiles[j];
            if p.p0.y <= y && y < p.p2.y {
                let x = quadratic_intersection(y, p.p0, p.p1, p.p2);
                let c = OrientedCrossing { dir: p.dir, x };
                proof {
                    let t = choose|t: int| quad_scan_bracket(p.p0, p.p1, p.p2, y as int, t, x as int);
                    assert(quad_scan_bracket(p.p0, p.p1, p.p2, y as int, t, c.x as int));
                    assert(crossing_found(*self, y as int, c));
                }
                found.push(c);
            }
            proof {
                assert(self.quadratic_profiles@.take(j + 1).drop_last()
                    =~= self.quadratic_profiles@.take(j as int));
                assert(self.quadratic_profiles@.take(j + 1).last() == self.quadratic_profiles@[
                    j as int
                ]);
            }
            j = j + 1;
        }
        proof {
            assert(self.quadratic_profiles@.take(self.quadratic_profiles@.len() as int)
                =~= self.quadratic_profiles@);
        }
        let mut k: usize = 0;
        while k < self.cubic_profiles.len()
            invariant
                self.wf(),
                k <= self.cubic_profiles@.len(),
                found@.len() == lin_hits(self.linear_profiles@, y as int) + quad_hits(
                    self.quadratic_profiles@,
                    y as int,
                ) + cubic_hits(self.cubic_profiles@.take(k as int), y as int),
                forall|m: int|
                    0 <= m < found@.len() ==> crossing_found(*self, y as int, #[trigger] found@[m]),
            decreases self.cubic_profiles@.len() - k,
        {
            let p = self.cubic_profiles[k];
            if p.p0.y <= y && y < p.p3.y {
                let x = cubic_intersection(y, p.p0, p.p1, p.p2, p.p3);
                let c = OrientedCrossing { dir: p.dir, x };
                proof {
                    let t = choose|t: int|
                        cubic_scan_bracket(p.p0, p.p1, p.p2, p.p3, y as int, t, x as int);
                    assert(cubic_scan_bracket(p.p0, p.p1, p.p2, p.p3, y as int, t, c.x as int));
                    assert(crossing_found(*self, y as int, c));
                }
                found.push(c);
            }
            proof {
                assert(self.cubic_profiles@.take(k + 1).drop_last() =~= self.cubic_profiles@.take(
                    k as int,
                ));
                assert(self.cubic_profiles@.take(k + 1).last() == self.cubic_profiles@[k as int]);
            }
            k = k + 1;
        }
        proof {
            assert(self.cubic_profiles@.take(self.cubic_profiles@.len() as int)
                =~= self.cubic_profiles@);
        }
        sort_crossings_found(self, y, found)
    }
}

/// The Y slope of a cubic at `t`, up to a positive factor: the Y difference
/// of the two second-level De Casteljau points.
fn cubic_y_slope(p0: Vec2, p1: Vec2, p2: Vec2, p3: Vec2, t: i64) -> (s: i64)
    requires
        p0.wf(),
        p1.wf(),
        p2.wf(),
        p3.wf(),
        0 <= t <= FX_ONE,
    ensures
        s as int == sp_cubic_third_deriv(pt(p0), pt(p1), pt(p2), pt(p3), t as int).1,
{
    let m0 = p0.lerp(p1, t);
    let m1 = p1.lerp(p2, t);
    let m2 = p2.lerp(p3, t);
    let c0 = m0.lerp(m1, t);
    let c1 = m1.lerp(m2, t);
    c1.y - c0.y
}

/// Shrink `[a, b]` by bisection toward a sign change of the cubic's Y
/// slope; the result stays inside the bracket.
fn cubic_slope_bisect(
    p0: Vec2,
    p1: Vec2,
    p2: Vec2,
    p3: Vec2,
    a0: i64,
    b0: i64,
    low_neg: bool,
) -> (t: i64)
    requires
        p0.wf(),
        p1.wf(),
        p2.wf(),
        p3.wf(),
        0 <= a0 <= b0 <= FX_ONE,
    ensures
        a0 <= t <= b0,
        t as int == sp_slope_bisect(p0, p1, p2, p3, a0 as int, b0 as int, low_neg),
{
    let mut a = a0;
    let mut b = b0;
    while b - a > 1
        invariant
            p0.wf(),
            p1.wf(),
            p2.wf(),
            p3.wf(),
            a0 <= a <= b <= b0 <= FX_ONE,
            0 <= a0,
            sp_slope_bisect(p0, p1, p2, p3, a as int, b as int, low_neg) == sp_slope_bisect(
                p0,
                p1,
                p2,
                p3,
                a0 as int,
                b0 as int,
                low_neg,
            ),
        decreases b - a,
    {
        let mid = a + (((b - a) as u64) / 2) as i64;
        if (cubic_y_slope(p0, p1, p2, p3, mid) < 0) == low_neg {
            proof {
                assert(sp_slope_bisect(p0, p1, p2, p3, a as int, b as int, low_neg)
                    == sp_slope_bisect(p0, p1, p2, p3, mid as int, b as int, low_neg));
            }
            a = mid;
        } else {
            proof {
                assert(sp_slope_bisect(p0, p1, p2, p3, a as int, b as int, low_neg)
                    == sp_slope_bisect(p0, p1, p2, p3, a as int, mid as int, low_neg));
            }
            b = mid;
        }
    }
    a
}

/// Sort crossings by X, keeping the crossing count and the provenance of
/// every element: repeatedly move the least remaining crossing over.
fn sort_crossings_found(rz: &Rasterizer, y: i64, crossings: Vec<OrientedCrossing>) -> (r: Vec<
    OrientedCrossing,
>)
    requires
        forall|k: int|
            0 <= k < crossings@.len() ==> crossing_found(*rz, y as int, #[trigger] crossings@[k]),
    ensures
        r@.len() == crossings@.len(),
        crossings_sorted(r@),
        forall|k: int| 0 <= k < r@.len() ==> crossing_found(*rz, y as int, #[trigger] r@[k]),
{
    let ghost total = crossings@.len();
    let mut work = crossings;
    let mut out: Vec<OrientedCrossing> = Vec::new();
    while work.len() > 0
        invariant
            out@.len() + work@.len() == total,
            crossings_sorted(out@),
            forall|k: int|
                0 <= k < work@.len() ==> crossing_found(*rz, y as int, #[trigger] work@[k]),
            forall|k: int| 0 <= k < out@.len() ==> crossing_found(*rz, y as int, #[trigger] out@[k]),
            forall|a: int, b: int|
                0 <= a < out@.len() && 0 <= b < work@.len() ==> out@[a].x <= work@[b].x,
        decreases work@.len(),
    {
        let mut mi: usize = 0;
        let mut j: usize = 1;
        while j < work.len()
            invariant
                work@.len() > 0,
                mi < work@.len(),
                j <= work@.len(),
                forall|k: int| 0 <= k < j ==> work@[mi as int].x <= (#[trigger] work@[k]).x,
            decreases work@.len() - j,
        {
            if work[j].x < work[mi].x {
                mi = j;
            }
            j = j + 1;
        }
        let ghost pre_work = work@;
        let c = work.remove(mi);
        proof {
            assert forall|b: int| 0 <= b < work@.len() implies c.x <= (#[trigger] work@[b]).x by {
                if b < mi {
                    assert(work@[b] == pre_work[b]);
                } else {
                    assert(work@[b] == pre_work[b + 1]);
                }
            }
            assert forall|b: int|
                0 <= b < work@.len() implies crossing_found(
                *rz,
                y as int,
                #[trigger] work@[b],
            ) by {
                if b < mi {
                    assert(work@[b] == pre_work[b]);
                } else {
                    assert(work@[b] == pre_work[b + 1]);
                }
            }
        }
        out.push(c);
    }
    out
}

} // verus!
