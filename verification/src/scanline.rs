//! Filling one pixel row from its scanline crossings.
//!
//! A crossing is an oriented intersection of the outline with the row's
//! scanline, reduced to the first pixel column at which it counts. Walking
//! the columns left to right and summing the directions of the crossings
//! passed so far gives the non-zero winding number; its sign decides inside
//! versus outside, and the chosen distance band is clamped to one byte.

use vstd::prelude::*;
use crate::curve::FX_LIMIT;
use crate::curve::FX_ONE;

verus! {

/// One oriented scanline crossing, by pixel column: `dir` is `+1` where the
/// outline's Y is locally increasing at the crossing and `-1` where it is
/// decreasing; `col` is the first column index whose pixel center lies at or
/// right of the crossing.
#[derive(Clone, Copy, Debug, PartialEq, Eq, Structural)]
pub struct ColumnCrossing {
    pub dir: i8,
    pub col: i64,
}

/// The crossings are ordered by column, as a sorted-by-x crossing list is.
pub open spec fn cols_sorted(cs: Seq<ColumnCrossing>) -> bool {
    forall|i: int, j: int| 0 <= i <= j < cs.len() ==> cs[i].col <= cs[j].col
}

/// The winding number at column `col`: the sum of the directions of every
/// crossing that counts at or before `col`.
pub open spec fn winding_at(cs: Seq<ColumnCrossing>, col: int) -> int
    decreases cs.len(),
{
    if cs.len() == 0 {
        0
    } else {
        winding_at(cs.drop_last(), col) + if cs.last().col <= col {
            cs.last().dir as int
        } else {
            0
        }
    }
}

/// The sum of the directions of the first `n` crossings.
pub open spec fn dir_prefix_sum(cs: Seq<ColumnCrossing>, n: int) -> int
    decreases n,
{
    if n <= 0 {
        0
    } else {
        dir_prefix_sum(cs, n - 1) + cs[n - 1].dir as int
    }
}

/// A prefix sum only reads the first `n` entries, so dropping later entries
/// does not change it.
proof fn lemma_prefix_sum_ignores_tail(cs: Seq<ColumnCrossing>, n: int)
    requires
        0 <= n <= cs.len() - 1,
    ensures
        dir_prefix_sum(cs.drop_last(), n) == dir_prefix_sum(cs, n),
    decreases n,
{
    if n > 0 {
        lemma_prefix_sum_ignores_tail(cs, n - 1);
    }
}

/// Where the first `n` crossings count at `col` and the rest do not, the
/// winding number at `col` is the sum of the first `n` directions.
pub proof fn lemma_winding_is_prefix_sum(cs: Seq<ColumnCrossing>, col: int, n: int)
    requires
        0 <= n <= cs.len(),
        forall|i: int| 0 <= i < n ==> (#[trigger] cs[i]).col <= col,
        forall|i: int| n <= i < cs.len() ==> (#[trigger] cs[i]).col > col,
    ensures
        winding_at(cs, col) == dir_prefix_sum(cs, n),
    decreases cs.len(),
{
    if cs.len() > 0 {
        let shorter = cs.drop_last();
        if n == cs.len() {
            lemma_winding_is_prefix_sum(shorter, col, n - 1);
            lemma_prefix_sum_ignores_tail(cs, n - 1);
        } else {
            lemma_winding_is_prefix_sum(shorter, col, n);
            lemma_prefix_sum_ignores_tail(cs, n);
        }
    }
}

/// Law: past the last crossing of a row the winding number settles at the
/// sum of every crossing's direction — so wherever the crossings of a
/// scanline balance (as those of closed contours do), the row ends outside.
pub proof fn lemma_winding_settles(cs: Seq<ColumnCrossing>, col: int)
    requires
        forall|i: int| 0 <= i < cs.len() ==> (#[trigger] cs[i]).col <= col,
    ensures
        winding_at(cs, col) == dir_prefix_sum(cs, cs.len() as int),
{
    lemma_winding_is_prefix_sum(cs, col, cs.len() as int);
}

/// The byte written for one pixel. `outside_band` and `inside_band` are the
/// two quantized distance candidates `127 - d * scale` and `127 + d * scale`
/// already truncated to integers; the winding number picks one by the
/// non-zero rule (its sign reversed under `reverse_fill`), and the choice is
/// clamped to `0 ..= 255`.
pub open spec fn pixel_value(
    outside_band: int,
    inside_band: int,
    winding: int,
    reverse_fill: bool,
) -> u8 {
    let inside = if reverse_fill {
        winding < 0
    } else {
        winding > 0
    };
    let chosen = if inside {
        inside_band
    } else {
        outside_band
    };
    if chosen < 0 {
        0u8
    } else if chosen > 255 {
        255u8
    } else {
        chosen as u8
    }
}

/// Clamp one chosen band value to a byte.
fn clamp_band(chosen: i64) -> (b: u8)
    ensures
        b == (if chosen < 0 {
            0u8
        } else if chosen > 255 {
            255u8
        } else {
            chosen as u8
        }),
{
    if chosen < 0 {
        0
    } else if chosen > 255 {
        255
    } else {
        chosen as u8
    }
}

/// Fill one pixel row. `bands[c]` holds the pixel's two quantized distance
/// candidates (outside, inside); `crossings` are the row's scanline
/// crossings ordered by column. The result holds, for every column, the
/// candidate chosen by the non-zero winding rule, clamped to one byte.
pub fn render_row(
    bands: &Vec<(i64, i64)>,
    crossings: &Vec<ColumnCrossing>,
    reverse_fill: bool,
) -> (row: Vec<u8>)
    requires
        cols_sorted(crossings@),
        bands@.len() <= 0x7fff_ffff,
        crossings@.len() <= 0x7fff_ffff,
    ensures
        row@.len() == bands@.len(),
        forall|c: int|
            0 <= c < bands@.len() ==> row@[c] == pixel_value(
                bands@[c].0 as int,
                bands@[c].1 as int,
                winding_at(crossings@, c),
                reverse_fill,
            ),
{
    let mut row: Vec<u8> = Vec::new();
    let mut winding: i64 = 0;
    let mut next: usize = 0;
    let width = bands.len();
    let mut col: usize = 0;
    while col < width
        invariant
            cols_sorted(crossings@),
            bands@.len() <= 0x7fff_ffff,
            crossings@.len() <= 0x7fff_ffff,
            width == bands@.len(),
            col <= width,
            next <= crossings@.len(),
            winding == dir_prefix_sum(crossings@, next as int),
            -(next as int) * 128 <= winding <= (next as int) * 128,
            forall|i: int| 0 <= i < next ==> (#[trigger] crossings@[i]).col < col + 1,
            row@.len() == col,
            forall|c: int|
                0 <= c < col ==> row@[c] == pixel_value(
                    bands@[c].0 as int,
                    bands@[c].1 as int,
                    winding_at(crossings@, c),
                    reverse_fill,
                ),
        decreases width - col,
    {
        while next < crossings.len() && crossings[next].col <= col as i64
            invariant
                cols_sorted(crossings@),
                crossings@.len() <= 0x7fff_ffff,
                col < width <= 0x7fff_ffff,
                next <= crossings@.len(),
                winding == dir_prefix_sum(crossings@, next as int),
                -(next as int) * 128 <= winding <= (next as int) * 128,
                forall|i: int| 0 <= i < next ==> (#[trigger] crossings@[i]).col <= col,
            decreases crossings@.len() - next,
        {
            winding = winding + crossings[next].dir as i64;
            next = next + 1;
        }
        proof {
            lemma_winding_is_prefix_sum(crossings@, col as int, next as int);
        }
        let (outside_band, inside_band) = bands[col];
        let inside = if reverse_fill {
            winding < 0
        } else {
            winding > 0
        };
        let chosen = if inside {
            inside_band
        } else {
            outside_band
        };
        row.push(clamp_band(chosen));
        col = col + 1;
    }
    row
}

/// The crossing list with every direction reversed, as reversing each
/// contour's orientation does.
pub open spec fn flip_dirs(cs: Seq<ColumnCrossing>) -> Seq<ColumnCrossing> {
    cs.map_values(|c: ColumnCrossing| ColumnCrossing { dir: -(c.dir as int) as i8, col: c.col })
}

/// Flipping every direction negates the winding number, as long as no
/// direction is the one `i8` value whose negation overflows.
pub proof fn lemma_flip_dirs_negates_winding(cs: Seq<ColumnCrossing>, col: int)
    requires
        forall|i: int| 0 <= i < cs.len() ==> (#[trigger] cs[i]).dir != i8::MIN,
    ensures
        winding_at(flip_dirs(cs), col) == -winding_at(cs, col),
    decreases cs.len(),
{
    if cs.len() > 0 {
        lemma_flip_dirs_negates_winding(cs.drop_last(), col);
        assert(flip_dirs(cs).drop_last() =~= flip_dirs(cs.drop_last()));
        assert(flip_dirs(cs).last() == ColumnCrossing {
            dir: -(cs.last().dir as int) as i8,
            col: cs.last().col,
        });
    }
}

/// Law: reverse-fill consistency. A crossing list with every direction
/// reversed, rendered under the reversed fill rule, colors every pixel
/// exactly as the unreversed list under the plain rule.
pub proof fn lemma_reverse_fill_matches(
    cs: Seq<ColumnCrossing>,
    col: int,
    outside_band: int,
    inside_band: int,
)
    requires
        forall|i: int| 0 <= i < cs.len() ==> (#[trigger] cs[i]).dir != i8::MIN,
    ensures
        pixel_value(outside_band, inside_band, winding_at(flip_dirs(cs), col), true)
            == pixel_value(outside_band, inside_band, winding_at(cs, col), false),
{
    lemma_flip_dirs_negates_winding(cs, col);
}

/// The quantized distance band pair of one pixel: `127 -/+ d * 1920 /
/// face_size`, the distance in fixed-point units and the scale applied as
/// one exact floor division.
pub open spec fn sp_bands(d: int, face_size: int) -> (int, int) {
    let s = (d * 1920) / (face_size * (FX_ONE as int));
    (127 - s, 127 + s)
}

/// The two quantization candidates of a pixel at distance `d` (fixed-point
/// units, not negative) from the outline: `127 - d * 1920 / face_size` for
/// outside and `127 + d * 1920 / face_size` for inside, exact on the
/// fixed-point grid.
pub fn quantize_bands(d: i64, face_size: usize) -> (bands: (i64, i64))
    requires
        0 <= d,
        1 <= face_size <= 0x1000,
    ensures
        bands.0 == sp_bands(d as int, face_size as int).0,
        bands.1 == sp_bands(d as int, face_size as int).1,
{
    proof {
        assert(0 <= d as int * 1920 <= 0x2_0000_0000_0000_0000_0000) by (nonlinear_arith)
            requires
                0 <= d as int <= 0x8000_0000_0000_0000,
        ;
        assert(0x10_0000 <= face_size as int * (FX_ONE as int) <= 0x1000_0000_0000)
            by (nonlinear_arith)
            requires
                1 <= face_size as int <= 0x1000,
        ;
    }
    let den: i128 = (face_size as i128) * (FX_ONE as i128);
    let num: i128 = (d as i128) * 1920;
    proof {
        lemma_band_scale_bounds(num as int, den as int);
    }
    let s: i128 = match num.checked_div_euclid(den) {
        Some(s) => s,
        None => 0,  // unreachable: the divisor is positive
    };
    (127 - (s as i64), 127 + (s as i64))
}

/// The scale quotient of a band is not negative and fits comfortably.
proof fn lemma_band_scale_bounds(num: int, den: int)
    requires
        0 <= num <= 0x2_0000_0000_0000_0000_0000,
        0x10_0000 <= den,
    ensures
        0 <= num / den <= 0x2000_0000_0000_0000,
{
    vstd::arithmetic::div_mod::lemma_div_pos_is_pos(num, den);
    vstd::arithmetic::div_mod::lemma_fundamental_div_mod(num, den);
    let q = num / den;
    let m = num % den;
    assert(q <= 0x2000_0000_0000_0000) by (nonlinear_arith)
        requires
            num == den * q + m,
            0 <= m < den,
            0x10_0000 <= den,
            0 <= num <= 0x2_0000_0000_0000_0000_0000,
            0 <= q,
    ;
}

/// The first pixel column whose center lies at or right of the fixed-point
/// X coordinate `x`, for a glyph whose leftmost pixel center sits at
/// `xmin + 1/2`: the least `col` with `x <= (xmin + col) * FX_ONE +
/// FX_ONE / 2`.
pub fn column_of(x: i64, xmin: i64) -> (col: i64)
    requires
        -FX_LIMIT <= x <= FX_LIMIT,
        -0x2800_0000 <= xmin <= 0x2800_0000,
    ensures
        x <= (xmin + col) * (FX_ONE as int) + (FX_ONE as int) / 2,
        x > (xmin + col - 1) * (FX_ONE as int) + (FX_ONE as int) / 2,
{
    let v: i128 = (x as i128) - (xmin as i128) * (FX_ONE as i128) - ((FX_ONE / 2) as i128);
    proof {
        assert(-0x2800_0000_0000_0000 <= xmin as int * (FX_ONE as int) <= 0x2800_0000_0000_0000)
            by (nonlinear_arith)
            requires
                -0x2800_0000 <= xmin as int <= 0x2800_0000,
        ;
    }
    let num: i128 = v + (FX_ONE - 1) as i128;
    let q: i128 = match num.checked_div_euclid(FX_ONE as i128) {
        Some(q) => q,
        None => 0,  // unreachable: the divisor is a positive constant
    };
    proof {
        lemma_ceil_div(v as int, FX_ONE as int);
        let col = (num as int) / (FX_ONE as int);
        assert((xmin as int + col) * (FX_ONE as int) == xmin as int * (FX_ONE as int) + col * (
        FX_ONE as int)) by (nonlinear_arith);
        assert((xmin as int + col - 1) * (FX_ONE as int) == xmin as int * (FX_ONE as int) + col * (
        FX_ONE as int) - (FX_ONE as int)) by (nonlinear_arith);
    }
    q as i64
}

/// Floor division of `v + den - 1` is the least `q` with `v <= q * den`.
proof fn lemma_ceil_div(v: int, den: int)
    requires
        1 <= den,
        -0x10_0000_0000_0000 <= v <= 0x10_0000_0000_0000,
    ensures
        v <= ((v + den - 1) / den) * den,
        v > ((v + den - 1) / den - 1) * den,
        -0x20_0000_0000_0000 <= (v + den - 1) / den <= 0x20_0000_0000_0000,
{
    vstd::arithmetic::div_mod::lemma_fundamental_div_mod(v + den - 1, den);
    let q = (v + den - 1) / den;
    let m = (v + den - 1) % den;
    assert(v <= q * den && v > (q - 1) * den && -0x20_0000_0000_0000 <= q <= 0x20_0000_0000_0000)
        by (nonlinear_arith)
        requires
            v + den - 1 == den * q + m,
            0 <= m < den,
            1 <= den,
            -0x10_0000_0000_0000 <= v <= 0x10_0000_0000_0000,
    ;
}

} // verus!
