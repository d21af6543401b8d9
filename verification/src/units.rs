//! Conversion from 26.6 fixed-point font units to the pixel grid.
//!
//! A face of `em` font units shown at `face` pixels has one pixel worth
//! `unit = em * 64 / face` 26.6 units. A 26.6 coordinate `v` lands on pixel
//! column `floor(v / unit + 1/2)`, which over the integers is
//! `(2 * v * face + 64 * em) / (128 * em)` rounded toward minus infinity.

use vstd::prelude::*;
use vstd::arithmetic::div_mod::lemma_div_is_ordered;
use vstd::arithmetic::div_mod::lemma_fundamental_div_mod;

verus! {

/// A glyph bounding box in 26.6 fixed-point font units.
#[derive(Clone, Copy, Debug, PartialEq, Eq, Structural)]
pub struct BBox {
    pub xmin: i64,
    pub ymin: i64,
    pub xmax: i64,
    pub ymax: i64,
}

impl BBox {
    /// The coordinate ranges under which the pixel-grid arithmetic is exact
    /// in 64-bit integers, and the box is a box.
    pub open spec fn wf(self) -> bool {
        &&& -0x400_0000 <= self.xmin <= self.xmax <= 0x400_0000
        &&& -0x400_0000 <= self.ymin <= self.ymax <= 0x400_0000
    }
}

/// The pixel-grid cell of the 26.6 coordinate `v`: `floor(v / unit + 1/2)`
/// with `unit = em * 64 / face`.
pub open spec fn px_of_26_6(v: int, em: int, face: int) -> int
    recommends
        1 <= em,
        1 <= face,
{
    (2 * v * face + 64 * em) / (128 * em)
}

/// Bounds on an em size, a face size, and a 26.6 coordinate under which
/// `px_from_26_6` cannot overflow.
pub open spec fn scale_args_ok(v: int, em: int, face: int) -> bool {
    &&& 16 <= em <= 0x1_0000
    &&& 1 <= face <= 0x1000
    &&& -0x400_0000 <= v <= 0x400_0000
}

/// `px_of_26_6` stays within `[-0x2000_0000, 0x2000_0000]` on well-bounded
/// arguments.
pub proof fn lemma_px_bounds(v: int, em: int, face: int)
    requires
        scale_args_ok(v, em, face),
    ensures
        -0x2000_0000 <= px_of_26_6(v, em, face) <= 0x2000_0000,
{
    let num = 2 * v * face + 64 * em;
    let den = 128 * em;
    assert(-0x80_0000_0000 <= 2 * v * face <= 0x80_0000_0000) by (nonlinear_arith)
        requires
            -0x400_0000 <= v <= 0x400_0000,
            1 <= face <= 0x1000,
    ;
    assert(2048 <= den <= 0x80_0000);
    let q = num / den;
    lemma_fundamental_div_mod(num, den);
    assert(num == den * q + num % den);
    assert(0 <= num % den < den);
    assert(-0x2000_0000 <= q <= 0x2000_0000) by (nonlinear_arith)
        requires
            num == den * q + num % den,
            0 <= num % den < den,
            2048 <= den <= 0x80_0000,
            -0x81_0000_0000 <= num <= 0x81_0000_0000,
    ;
}

/// `px_of_26_6` is monotonic in the coordinate.
pub proof fn lemma_px_monotonic(v1: int, v2: int, em: int, face: int)
    requires
        1 <= em,
        1 <= face,
        v1 <= v2,
    ensures
        px_of_26_6(v1, em, face) <= px_of_26_6(v2, em, face),
{
    assert(2 * v1 * face <= 2 * v2 * face) by (nonlinear_arith)
        requires
            v1 <= v2,
            1 <= face,
    ;
    assert(128 * em >= 128);
    lemma_div_is_ordered(2 * v1 * face + 64 * em, 2 * v2 * face + 64 * em, 128 * em);
}

/// The pixel-grid cell of the 26.6 coordinate `v`, exactly
/// `floor(v * face / (64 * em) + 1/2)`.
pub fn px_from_26_6(v: i64, em: i64, face: i64) -> (r: i64)
    requires
        scale_args_ok(v as int, em as int, face as int),
    ensures
        r == px_of_26_6(v as int, em as int, face as int),
        -0x2000_0000 <= r <= 0x2000_0000,
{
    proof {
        assert(-0x80_0000_0000 <= 2 * (v as int) * (face as int) <= 0x80_0000_0000)
            by (nonlinear_arith)
            requires
                -0x400_0000 <= v as int <= 0x400_0000,
                1 <= face as int <= 0x1000,
        ;
    }
    let num: i64 = 2 * v * face + 64 * em;
    let den: i64 = 128 * em;
    proof {
        lemma_px_bounds(v as int, em as int, face as int);
    }
    match num.checked_div_euclid(den) {
        Some(q) => q,
        None => 0,  // unreachable: the quotient always fits an i64
    }
}

/// The pixel-space position of the 26.6 coordinate `v`, on the signed
/// 20-bit fixed-point grid: `v / unit` scaled by 2^20, which over the
/// integers is `v * face * 2^14 / em` rounded toward minus infinity.
pub open spec fn fx_of_26_6(v: int, em: int, face: int) -> int {
    (v * face * 0x4000) / em
}

/// The pixel-space position of the 26.6 coordinate `v` on the fixed-point
/// grid, exact.
pub fn fixed_from_26_6(v: i64, em: i64, face: i64) -> (r: i64)
    requires
        scale_args_ok(v as int, em as int, face as int),
    ensures
        r == fx_of_26_6(v as int, em as int, face as int),
        -0x1_0000_0000_0000 <= r <= 0x1_0000_0000_0000,
{
    proof {
        assert(-0x40_0000_0000 <= (v as int) * (face as int) <= 0x40_0000_0000)
            by (nonlinear_arith)
            requires
                -0x400_0000 <= v as int <= 0x400_0000,
                1 <= face as int <= 0x1000,
        ;
        assert((v as int) * (face as int) * 0x4000 == ((v as int) * (face as int)) * 0x4000);
        assert(-0x10_0000_0000_0000 <= ((v as int) * (face as int)) * 0x4000
            <= 0x10_0000_0000_0000) by (nonlinear_arith)
            requires
                -0x40_0000_0000 <= (v as int) * (face as int) <= 0x40_0000_0000,
        ;
    }
    let num: i128 = ((v as i128) * (face as i128)) * 0x4000;
    let q: i128 = match num.checked_div_euclid(em as i128) {
        Some(q) => q,
        None => 0,  // unreachable: the divisor is positive
    };
    proof {
        lemma_fx_range(num as int, em as int);
    }
    q as i64
}

/// The quotient of a bounded numerator by an em size at least 16 stays on
/// the fixed-point grid's coordinate range.
proof fn lemma_fx_range(num: int, em: int)
    requires
        16 <= em,
        -0x10_0000_0000_0000 <= num <= 0x10_0000_0000_0000,
    ensures
        -0x1_0000_0000_0000 <= num / em <= 0x1_0000_0000_0000,
{
    lemma_fundamental_div_mod(num, em);
    let q = num / em;
    let m = num % em;
    assert(-0x1_0000_0000_0000 <= q <= 0x1_0000_0000_0000) by (nonlinear_arith)
        requires
            num == em * q + m,
            0 <= m < em,
            16 <= em,
            -0x10_0000_0000_0000 <= num <= 0x10_0000_0000_0000,
    ;
}

} // verus!
